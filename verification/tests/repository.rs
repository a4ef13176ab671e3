use prompt_store::errors::StoreError;
use prompt_store::kvmap::StrMap;
use prompt_store::paths::{parse_id, prompt_path};
use prompt_store::record::{PromptData, PromptSchema};
use prompt_store::store::{upsert_deployed, PromptStore};
use prompt_store::record::DeployedInfo;

fn new_store() -> PromptStore {
    PromptStore::new_from_key((0u8..32).collect(), StrMap::new()).unwrap()
}

fn create(store: &mut PromptStore, title: &str, content: &str) -> String {
    store
        .create_prompt(title.to_string(), content.to_string(), Vec::new(), None)
        .unwrap()
}

#[test]
fn parse_id_splits_workspace() {
    assert_eq!(parse_id("abc"), ("default".to_string(), "abc".to_string()));
    assert_eq!(parse_id("pack::abc"), ("pack".to_string(), "abc".to_string()));
    assert_eq!(parse_id("a::b::c"), ("a".to_string(), "b::c".to_string()));
}

#[test]
fn prompt_path_shapes() {
    assert_eq!(prompt_path("abc"), "workspaces/default/abc.prompt");
    assert_eq!(prompt_path("pack::abc"), "workspaces/pack/abc.prompt");
    assert_eq!(prompt_path("chainid/2"), "workspaces/default/chainid/2.prompt");
}

#[test]
fn create_then_get_round_trip() {
    let mut store = new_store();
    let id = create(&mut store, "My Title", "Hello {{name}}");
    assert_eq!(id.len(), 8);
    let pd = store.get_prompt(&id).unwrap();
    assert_eq!(pd.id, id);
    assert_eq!(pd.title, "My Title");
    assert_eq!(pd.content, "Hello {{name}}");
    assert!(pd.tags.is_empty());
    assert!(pd.schema.is_none());
}

#[test]
fn record_with_tags_and_schema_survives() {
    let mut store = new_store();
    let pd_in = PromptData {
        id: String::new(),
        title: "T \"quoted\"\n".to_string(),
        content: "line1\nline2\tend\\".to_string(),
        tags: vec!["a".to_string(), "b,c".to_string()],
        schema: Some(PromptSchema {
            inputs: Some("{\"x\":1}".to_string()),
            output: None,
        }),
    };
    let id = store
        .create_prompt(pd_in.title.clone(), pd_in.content.clone(), pd_in.tags.clone(), pd_in.schema)
        .unwrap();
    let pd = store.get_prompt(&id).unwrap();
    assert_eq!(pd.title, pd_in.title);
    assert_eq!(pd.content, pd_in.content);
    assert_eq!(pd.tags, pd_in.tags);
    let sc = pd.schema.unwrap();
    assert_eq!(sc.inputs.as_deref(), Some("{\"x\":1}"));
    assert!(sc.output.is_none());
}

#[test]
fn find_prefers_direct_id_then_title() {
    let mut store = new_store();
    let id = create(&mut store, "Greeting", "hi");
    let by_id = store.find_prompt(&id).unwrap();
    assert_eq!(by_id.title, "Greeting");
    let by_title = store.find_prompt("greeting").unwrap();
    assert_eq!(by_title.id, id);
}

#[test]
fn find_missing_is_not_found() {
    let store = new_store();
    assert!(matches!(store.find_prompt("nothing"), Err(StoreError::NotFound(_))));
}

#[test]
fn ambiguous_title_is_reported_not_picked() {
    let mut store = new_store();
    create(&mut store, "Shared Name", "one");
    create(&mut store, "shared name", "two");
    assert!(matches!(
        store.find_prompt("SHARED NAME"),
        Err(StoreError::AmbiguousTitle(_))
    ));
}

#[test]
fn edit_writes_backup_and_new_content() {
    let mut store = new_store();
    let id = create(&mut store, "T", "v1");
    let mut edited = store.get_prompt(&id).unwrap();
    edited.content = "v2".to_string();
    let changed = store.save_edited(&id, &edited, &"20240101000000".to_string()).unwrap();
    assert!(changed);
    assert_eq!(store.get_prompt(&id).unwrap().content, "v2");
    let backups = store.list_backups(&id);
    assert_eq!(backups.len(), 1);
    assert!(backups[0].ends_with(".bak"));
}

#[test]
fn edit_without_change_is_a_no_op() {
    let mut store = new_store();
    let id = create(&mut store, "T", "v1");
    let same = store.get_prompt(&id).unwrap();
    let changed = store.save_edited(&id, &same, &"20240101000000".to_string()).unwrap();
    assert!(!changed);
    assert!(store.list_backups(&id).is_empty());
}

#[test]
fn revert_restores_latest_backup_and_backs_up_current() {
    let mut store = new_store();
    let id = create(&mut store, "T", "v1");
    let mut e = store.get_prompt(&id).unwrap();
    e.content = "v2".to_string();
    store.save_edited(&id, &e, &"20240101000000".to_string()).unwrap();
    let mut e2 = store.get_prompt(&id).unwrap();
    e2.content = "v3".to_string();
    store.save_edited(&id, &e2, &"20240102000000".to_string()).unwrap();
    // backups now hold v1 and v2; the latest backup is v2
    store.revert(&id, None, &"20240103000000".to_string()).unwrap();
    assert_eq!(store.get_prompt(&id).unwrap().content, "v2");
    // revert of the revert is possible: current state was backed up
    assert_eq!(store.list_backups(&id).len(), 3);
}

#[test]
fn revert_with_missing_timestamp_fails() {
    let mut store = new_store();
    let id = create(&mut store, "T", "v1");
    let r = store.revert(&id, Some(&"19990101000000".to_string()), &"20240101000000".to_string());
    assert!(matches!(r, Err(StoreError::NotFound(_))));
}

#[test]
fn rename_and_delete() {
    let mut store = new_store();
    let id = create(&mut store, "Old", "c");
    store.rename_prompt(&id, "New".to_string()).unwrap();
    assert_eq!(store.get_prompt(&id).unwrap().title, "New");
    store.delete_prompt(&id).unwrap();
    assert!(matches!(store.get_prompt(&id), Err(StoreError::NotFound(_))));
    assert!(matches!(store.delete_prompt(&id), Err(StoreError::NotFound(_))));
}

#[test]
fn rotation_keeps_records_readable_under_new_key() {
    let mut store = new_store();
    let id1 = create(&mut store, "One", "c1");
    let id2 = create(&mut store, "Two", "c2");
    let old_key = store.key.clone();
    let keyfile = store.rotate(None).unwrap();
    assert_eq!(keyfile, store.key);
    assert_ne!(store.key, old_key);
    assert_eq!(store.get_prompt(&id1).unwrap().content, "c1");
    assert_eq!(store.get_prompt(&id2).unwrap().content, "c2");
}

#[test]
fn rotation_with_password_wraps_key_file() {
    let mut store = new_store();
    create(&mut store, "One", "c1");
    let keyfile = store.rotate(Some("pw")).unwrap();
    assert_eq!(&keyfile[0..4], &b"PSWD"[..]);
    let raw = prompt_store::crypto::decrypt_key_with_password(&keyfile, "pw").unwrap();
    assert_eq!(raw, store.key);
}

#[test]
fn rotation_aborts_unchanged_when_a_record_is_corrupt() {
    let mut store = new_store();
    let id = create(&mut store, "One", "c1");
    create(&mut store, "Two", "c2");
    // corrupt one stored file
    let path = prompt_path(&id);
    let idx = store.files.get_index(&path).unwrap();
    let original_entries: Vec<(String, String)> = store
        .files
        .entries
        .iter()
        .map(|(p, t)| (p.clone(), t.clone()))
        .collect();
    store.files.entries[idx].1 = "corrupted!!".to_string();
    let before: Vec<(String, String)> = store
        .files
        .entries
        .iter()
        .map(|(p, t)| (p.clone(), t.clone()))
        .collect();
    let old_key = store.key.clone();
    assert!(store.rotate(None).is_err());
    assert_eq!(store.key, old_key);
    let after: Vec<(String, String)> = store
        .files
        .entries
        .iter()
        .map(|(p, t)| (p.clone(), t.clone()))
        .collect();
    assert_eq!(before, after);
    assert_ne!(original_entries, after);
}

#[test]
fn chain_meta_and_steps() {
    let mut store = new_store();
    let cid = store.create_chain("My Chain".to_string()).unwrap();
    let meta = store.get_chain_meta(&cid).unwrap();
    assert_eq!(meta.id, cid);
    assert_eq!(meta.title, "My Chain");

    let step = PromptData {
        id: format!("{}/1", cid),
        title: "Step 1".to_string(),
        content: "do {{thing}}".to_string(),
        tags: vec![],
        schema: None,
    };
    store.store_chain_step(&cid, &"1".to_string(), &step).unwrap();
    let full_id = format!("{}/1", cid);
    let got = store.get_prompt(&full_id).unwrap();
    assert_eq!(got.title, "Step 1");

    store.set_chain_title(&cid, "Renamed".to_string()).unwrap();
    assert_eq!(store.get_chain_meta(&cid).unwrap().title, "Renamed");
    assert_eq!(store.get_chain_meta(&cid).unwrap().id, cid);
}

#[test]
fn chain_definition_import_and_read() {
    let mut store = new_store();
    let def = "steps:\n  - id: s1\n    prompt: p1\n    provider: openai\n".to_string();
    store.import_chain_definition("mychain", &def).unwrap();
    assert_eq!(store.read_chain_definition("mychain").unwrap(), def);
    assert!(matches!(
        store.import_chain_definition("mychain", &def),
        Err(StoreError::Configuration(_))
    ));
    assert!(matches!(
        store.read_chain_definition("otherchain"),
        Err(StoreError::NotFound(_))
    ));
}

#[test]
fn install_pack_replaces_workspace_contents() {
    let mut store = new_store();
    let keep_id = create(&mut store, "Keep", "keep me");
    let stale = PromptData {
        id: "stale123".to_string(),
        title: "Stale".to_string(),
        content: "old".to_string(),
        tags: vec![],
        schema: None,
    };
    store
        .install_pack(&"mypack".to_string(), &vec![stale])
        .unwrap();
    let fresh = PromptData {
        id: "fresh456".to_string(),
        title: "Fresh".to_string(),
        content: "new".to_string(),
        tags: vec![],
        schema: None,
    };
    let n = store
        .install_pack(&"mypack".to_string(), &vec![fresh])
        .unwrap();
    assert_eq!(n, 1);
    assert_eq!(store.get_prompt("mypack::fresh456").unwrap().content, "new");
    assert!(matches!(
        store.get_prompt("mypack::stale123"),
        Err(StoreError::NotFound(_))
    ));
    assert_eq!(store.get_prompt(&keep_id).unwrap().content, "keep me");
}

#[test]
fn upsert_deployed_replaces_or_appends() {
    let a = DeployedInfo {
        alias: "a".to_string(),
        url: "u1".to_string(),
        commit_hash: "h1".to_string(),
    };
    let list = upsert_deployed(Vec::new(), a);
    assert_eq!(list.len(), 1);
    let a2 = DeployedInfo {
        alias: "a".to_string(),
        url: "u1".to_string(),
        commit_hash: "h2".to_string(),
    };
    let list = upsert_deployed(list, a2);
    assert_eq!(list.len(), 1);
    assert_eq!(list[0].commit_hash, "h2");
    let b = DeployedInfo {
        alias: "b".to_string(),
        url: "u2".to_string(),
        commit_hash: "h3".to_string(),
    };
    let list = upsert_deployed(list, b);
    assert_eq!(list.len(), 2);
}
