//! The encrypted prompt repository: an in-memory file store of sealed record
//! texts under one master key. Callers load file contents into it and write
//! changed contents back out.

use crate::codec::{
    chain_decode, chain_encode, chain_json, chain_parse, record_decode, record_encode,
    record_json, record_parse,
};
use crate::crypto::{
    open_bytes_spec, open_record_bytes, open_record_text, open_text_spec, seal_record_bytes,
    seal_record_text,
};
use crate::record::SchemaV;
use crate::trusted::{aead_pt_max, kdf_pwd_max};
use crate::errors::StoreError;
use crate::kvmap::StrMap;
use crate::paths::{
    backup_path, backup_path_spec, bak_ext, chain_meta_path, chain_meta_path_spec, parse_id,
    prompt_ext, prompt_path, prompt_path_spec, fresh_id_candidate, wf_generated_id, ws_prefix,
};
use crate::record::{ChainData, DeployedInfo, PromptData, RecordV};
use crate::text::{
    chars_ends_with, chars_eq_ignore_case, chars_lex_lt, chars_starts_with, ends_with_spec,
    eq_ignore_case, lex_lt, starts_with_spec,
};
use crate::trusted::{chars_to_string, str_to_chars};
use vstd::prelude::*;

verus! {

/// The record a sealed file text denotes under a key, if any.
pub open spec fn open_record_spec(key: Seq<u8>, text: Seq<char>) -> Option<RecordV> {
    match open_text_spec(key, text) {
        None => None,
        Some(s) => record_parse(s),
    }
}

/// Whether a path names a prompt record file under some workspace.
pub open spec fn is_prompt_file(path: Seq<char>) -> bool {
    starts_with_spec(path, ws_prefix()) && ends_with_spec(path, prompt_ext())
}

/// Whether a sealed file text holds a record whose title equals the query up
/// to ASCII case.
pub open spec fn title_matches(key: Seq<u8>, text: Seq<char>, q: Seq<char>) -> bool {
    match open_record_spec(key, text) {
        Some(v) => eq_ignore_case(v.title, q),
        None => false,
    }
}

/// Whether a store entry is a prompt file matching the title query.
pub open spec fn entry_matches(key: Seq<u8>, e: (String, String), q: Seq<char>) -> bool {
    is_prompt_file(e.0@) && title_matches(key, e.1@, q)
}

/// How many store entries match the title query.
pub open spec fn match_count(key: Seq<u8>, entries: Seq<(String, String)>, q: Seq<char>) -> int
    decreases entries.len(),
{
    if entries.len() == 0 {
        0
    } else {
        match_count(key, entries.drop_last(), q) + (if entry_matches(key, entries.last(), q) {
            1int
        } else {
            0int
        })
    }
}

/// The first matching record in entry order, if any.
pub open spec fn first_match(key: Seq<u8>, entries: Seq<(String, String)>, q: Seq<char>) -> Option<
    RecordV,
>
    decreases entries.len(),
{
    if entries.len() == 0 {
        None
    } else if entry_matches(key, entries.first(), q) {
        open_record_spec(key, entries.first().1@)
    } else {
        first_match(key, entries.drop_first(), q)
    }
}

/// What a lookup by id or title yields.
pub ghost enum FindOut {
    /// The unique record found, by path or by title.
    Found(RecordV),
    /// No record by that path and no title match.
    Missing,
    /// More than one title match.
    Ambiguous,
    /// A direct path hit whose file does not open; the flag says whether the
    /// failure was cryptographic (else the plaintext was malformed).
    Unreadable(bool),
}

/// The encrypted prompt repository: the master key and the sealed files.
pub struct PromptStore {
    pub key: Vec<u8>,
    pub files: StrMap,
}

impl View for PromptStore {
    type V = Map<Seq<char>, Seq<char>>;

    open spec fn view(&self) -> Map<Seq<char>, Seq<char>> {
        self.files@
    }
}

/// The meaning of a lookup: direct path resolution first, then a
/// case-insensitive exact-title scan; ambiguity is never silently resolved.
pub open spec fn find_spec(key: Seq<u8>, files: StrMap, q: Seq<char>) -> FindOut {
    let path = prompt_path_spec(q);
    if files@.dom().contains(path) {
        match open_record_spec(key, files@[path]) {
            Some(v) => FindOut::Found(v),
            None => FindOut::Unreadable(open_bytes_spec(key, files@[path]) is None),
        }
    } else {
        let c = match_count(key, files.entries@, q);
        if c == 0 {
            FindOut::Missing
        } else if c == 1 {
            match first_match(key, files.entries@, q) {
                Some(v) => FindOut::Found(v),
                None => FindOut::Missing,
            }
        } else {
            FindOut::Ambiguous
        }
    }
}

impl PromptStore {
    /// The key has its full 32 bytes and no path occurs twice.
    pub open spec fn wf(&self) -> bool {
        self.key@.len() == 32 && self.files.wf()
    }

    /// Builds a store over a master key and an initial set of sealed files.
    pub fn new_from_key(key: Vec<u8>, files: StrMap) -> (r: Result<PromptStore, StoreError>)
        ensures
            r matches Ok(s) ==> s.key@ == key@ && s.files@ == files@ && s.files.entries@
                == files.entries@ && (files.wf() ==> s.wf()),
            r is Err ==> key@.len() != 32,
    {
        if key.len() != 32 {
            return Err(StoreError::Crypto("Invalid key length".to_string()));
        }
        Ok(PromptStore { key, files })
    }

    /// Decrypts and decodes the record at an exact path. `NotFound` when the
    /// path has no file.
    pub fn get_prompt(&self, full_id: &str) -> (r: Result<PromptData, StoreError>)
        requires
            self.wf(),
        ensures
            r matches Ok(pd) ==> self.files@.dom().contains(prompt_path_spec(full_id@))
                && open_record_spec(self.key@, self.files@[prompt_path_spec(full_id@)]) == Some(
                pd@,
            ),
            r matches Err(e) ==> (!self.files@.dom().contains(prompt_path_spec(full_id@))
                && e is NotFound) || (self.files@.dom().contains(prompt_path_spec(full_id@))
                && open_record_spec(self.key@, self.files@[prompt_path_spec(full_id@)]) is None
                && (e is Crypto || e is Json)),
    {
        let path = prompt_path(full_id);
        match self.files.get(&path) {
            None => Err(StoreError::NotFound(path)),
            Some(text) => decrypt_full_prompt(&self.key, text),
        }
    }

    /// Looks a prompt up by id or exact title (case-insensitive): a direct
    /// path hit wins; otherwise exactly one title match is returned, none is
    /// `NotFound`, and several are `AmbiguousTitle`.
    pub fn find_prompt(&self, id_or_title: &str) -> (r: Result<PromptData, StoreError>)
        requires
            self.wf(),
        ensures
            match find_spec(self.key@, self.files, id_or_title@) {
                FindOut::Found(v) => r matches Ok(pd) && pd@ == v,
                FindOut::Missing => r matches Err(e) && e is NotFound,
                FindOut::Ambiguous => r matches Err(e) && e is AmbiguousTitle,
                FindOut::Unreadable(c) => r matches Err(e) && (c ==> e is Crypto) && (!c
                    ==> e is Json),
            },
    {
        let path = prompt_path(id_or_title);
        match self.files.get(&path) {
            Some(text) => decrypt_full_prompt(&self.key, text),
            None => {
                let q = str_to_chars(id_or_title);
                let n = self.files.len();
                let mut wsp: Vec<char> = Vec::new();
                wsp.push('w');
                wsp.push('o');
                wsp.push('r');
                wsp.push('k');
                wsp.push('s');
                wsp.push('p');
                wsp.push('a');
                wsp.push('c');
                wsp.push('e');
                wsp.push('s');
                wsp.push('/');
                let mut ext: Vec<char> = Vec::new();
                ext.push('.');
                ext.push('p');
                ext.push('r');
                ext.push('o');
                ext.push('m');
                ext.push('p');
                ext.push('t');
                proof {
                    assert(wsp@ =~= ws_prefix());
                    assert(ext@ =~= prompt_ext());
                }
                let mut i: usize = 0;
                let mut found: Option<PromptData> = None;
                let mut count: usize = 0;
                while i < n
                    invariant
                        self.wf(),
                        0 <= i <= n,
                        n == self.files.entries@.len(),
                        q@ == id_or_title@,
                        wsp@ == ws_prefix(),
                        ext@ == prompt_ext(),
                        count == match_count(
                            self.key@,
                            self.files.entries@.subrange(0, i as int),
                            q@,
                        ),
                        count <= i,
                        count >= 1 ==> (found matches Some(pd) && first_match(
                            self.key@,
                            self.files.entries@.subrange(0, i as int),
                            q@,
                        ) == Some(pd@)),
                        count == 0 ==> (found is None && first_match(
                            self.key@,
                            self.files.entries@.subrange(0, i as int),
                            q@,
                        ) is None),
                    decreases n - i,
                {
                    let ghost pre = self.files.entries@.subrange(0, i as int);
                    let entry_path = str_to_chars(self.files.entries[i].0.as_str());
                    let mut hit = false;
                    if chars_starts_with(&entry_path, &wsp) && chars_ends_with(&entry_path, &ext)
                    {
                        match decrypt_full_prompt(&self.key, &self.files.entries[i].1) {
                            Ok(pd) => {
                                let title_chars = str_to_chars(pd.title.as_str());
                                if chars_eq_ignore_case(&title_chars, &q) {
                                    hit = true;
                                    count += 1;
                                    if count == 1 {
                                        found = Some(pd);
                                    }
                                }
                            },
                            Err(_) => {},
                        }
                    }
                    proof {
                        let e = self.files.entries@[i as int];
                        let prenew = self.files.entries@.subrange(0, i + 1);
                        assert(prenew =~= pre.push(e));
                        assert(hit == entry_matches(self.key@, e, q@));
                        lemma_first_match_snoc(self.key@, pre, e, q@);
                        assert(match_count(self.key@, pre.push(e), q@) == match_count(
                            self.key@,
                            pre,
                            q@,
                        ) + (if entry_matches(self.key@, e, q@) {
                            1int
                        } else {
                            0int
                        })) by {
                            assert(pre.push(e).drop_last() =~= pre);
                            assert(pre.push(e).last() == e);
                        }
                    }
                    i += 1;
                }
                proof {
                    assert(self.files.entries@.subrange(0, n as int) =~= self.files.entries@);
                }
                if count == 0 {
                    Err(StoreError::NotFound(path))
                } else if count == 1 {
                    match found {
                        Some(pd) => Ok(pd),
                        None => Err(StoreError::NotFound(path)),
                    }
                } else {
                    Err(StoreError::AmbiguousTitle(path))
                }
            },
        }
    }
}

/// Appending one entry extends the first title match only when nothing
/// matched before.
pub proof fn lemma_first_match_snoc(
    key: Seq<u8>,
    entries: Seq<(String, String)>,
    e: (String, String),
    q: Seq<char>,
)
    ensures
        first_match(key, entries.push(e), q) == (if first_match(key, entries, q) is Some {
            first_match(key, entries, q)
        } else if entry_matches(key, e, q) {
            open_record_spec(key, e.1@)
        } else {
            None::<RecordV>
        }),
    decreases entries.len(),
{
    let p = entries.push(e);
    assert(p.len() == entries.len() + 1);
    if entries.len() == 0 {
        assert(p.first() == e);
        assert(p.drop_first() =~= Seq::<(String, String)>::empty());
        assert(first_match(key, p.drop_first(), q) is None);
        assert(first_match(key, entries, q) is None);
    } else {
        assert(p.first() == entries.first());
        assert(p.drop_first() =~= entries.drop_first().push(e));
        lemma_first_match_snoc(key, entries.drop_first(), e, q);
        if entry_matches(key, entries.first(), q) {
            assert(first_match(key, p, q) == open_record_spec(key, entries.first().1@));
            assert(first_match(key, entries, q) == open_record_spec(key, entries.first().1@));
            assert(open_record_spec(key, entries.first().1@) is Some);
        } else {
            assert(first_match(key, p, q) == first_match(key, entries.drop_first().push(e), q));
            assert(first_match(key, entries, q) == first_match(key, entries.drop_first(), q));
        }
    }
}

/// There is a first match exactly when the match count is positive, and a
/// matching entry never fails to open.
pub proof fn lemma_first_match_count(key: Seq<u8>, entries: Seq<(String, String)>, q: Seq<char>)
    ensures
        first_match(key, entries, q) is Some <==> match_count(key, entries, q) >= 1,
        first_match(key, entries, q) matches Some(v) ==> eq_ignore_case(v.title, q),
    decreases entries.len(),
{
    lemma_match_count_nonneg(key, entries, q);
    if entries.len() > 0 {
        lemma_first_match_count(key, entries.drop_first(), q);
        lemma_match_count_drop_first(key, entries, q);
        lemma_match_count_nonneg(key, entries.drop_first(), q);
    }
}

/// Match counts are not negative.
pub proof fn lemma_match_count_nonneg(key: Seq<u8>, entries: Seq<(String, String)>, q: Seq<char>)
    ensures
        match_count(key, entries, q) >= 0,
    decreases entries.len(),
{
    if entries.len() > 0 {
        lemma_match_count_nonneg(key, entries.drop_last(), q);
    }
}

/// The count over a sequence is the head's contribution plus the tail's.
pub proof fn lemma_match_count_drop_first(
    key: Seq<u8>,
    entries: Seq<(String, String)>,
    q: Seq<char>,
)
    requires
        entries.len() > 0,
    ensures
        match_count(key, entries, q) == match_count(key, entries.drop_first(), q) + (
        if entry_matches(key, entries.first(), q) {
            1int
        } else {
            0int
        }),
    decreases entries.len(),
{
    if entries.len() == 1 {
        assert(entries.drop_last() =~= Seq::<(String, String)>::empty());
        assert(entries.drop_first() =~= Seq::<(String, String)>::empty());
        assert(entries.last() == entries.first());
    } else {
        lemma_match_count_drop_first(key, entries.drop_last(), q);
        assert(entries.drop_last().drop_first() =~= entries.drop_first().drop_last());
        assert(entries.drop_last().first() == entries.first());
        assert(entries.drop_first().last() == entries.last());
    }
}

/// Decrypts a sealed file text and decodes the prompt record in it.
pub fn decrypt_full_prompt(key: &Vec<u8>, file_text: &String) -> (r: Result<
    PromptData,
    StoreError,
>)
    requires
        key@.len() == 32,
    ensures
        r matches Ok(pd) ==> open_record_spec(key@, file_text@) == Some(pd@),
        r is Err ==> open_record_spec(key@, file_text@) is None,
        r matches Err(e) ==> (crate::crypto::open_bytes_spec(key@, file_text@) is None
            && e is Crypto) || (crate::crypto::open_bytes_spec(key@, file_text@) is Some
            && e is Json),
{
    let text = open_record_text(key, file_text)?;
    let chars = str_to_chars(text.as_str());
    match record_decode(&chars) {
        Some(pd) => Ok(pd),
        None => Err(StoreError::Json("Invalid JSON".to_string())),
    }
}

/// Decrypts a sealed file text and decodes the chain metadata in it.
pub fn decrypt_chain_meta(key: &Vec<u8>, file_text: &String) -> (r: Result<ChainData, StoreError>)
    requires
        key@.len() == 32,
    ensures
        r matches Ok(cd) ==> (match open_text_spec(key@, file_text@) {
            Some(s) => chain_parse(s) == Some((cd.id@, cd.title@)),
            None => false,
        }),
        r is Err ==> (match open_text_spec(key@, file_text@) {
            Some(s) => chain_parse(s) is None,
            None => true,
        }),
        r matches Err(e) ==> (crate::crypto::open_bytes_spec(key@, file_text@) is None
            && e is Crypto) || (crate::crypto::open_bytes_spec(key@, file_text@) is Some
            && e is Json),
{
    let text = open_record_text(key, file_text)?;
    let chars = str_to_chars(text.as_str());
    match chain_decode(&chars) {
        Some(cd) => Ok(cd),
        None => Err(StoreError::Json("Invalid JSON".to_string())),
    }
}

impl PromptStore {
    /// Seals a record and stores it at the given path, overwriting.
    pub fn store_record(&mut self, path: String, pd: &PromptData) -> (r: Result<(), StoreError>)
        requires
            old(self).wf(),
        ensures
            final(self).wf(),
            final(self).key@ == old(self).key@,
            r matches Ok(_) ==> final(self)@ == old(self)@.insert(path@, final(self)@[path@])
                && final(self)@.dom().contains(path@) && open_record_spec(
                final(self).key@,
                final(self)@[path@],
            ) == Some(pd@),
            r is Err ==> final(self)@ == old(self)@ && final(self).files.entries@ == old(self).files.entries@,
            r matches Err(e) ==> e is Crypto,
            vstd::utf8::encode_utf8(record_json(pd@)).len() <= aead_pt_max() ==> r is Ok,
    {
        let json = record_encode(pd);
        let json_s = chars_to_string(&json);
        let sealed = seal_record_text(&self.key, &json_s)?;
        proof {
            crate::codec::lemma_record_round(pd@);
        }
        self.files.insert(path, sealed);
        Ok(())
    }

    /// Creates a new prompt: draws a fresh random id that collides with no
    /// existing file, then seals and stores the record in the default
    /// workspace. Success cannot be promised outright — the random draws may
    /// keep colliding — but the possible failures are pinned: an Io error
    /// after exhausting the draws, or a Crypto error only where a record with
    /// some generated id would exceed the cipher's length bound.
    pub fn create_prompt(
        &mut self,
        title: String,
        content: String,
        tags: Vec<String>,
        schema: Option<crate::record::PromptSchema>,
    ) -> (r: Result<String, StoreError>)
        requires
            old(self).wf(),
        ensures
            final(self).wf(),
            final(self).key@ == old(self).key@,
            r matches Ok(id) ==> wf_generated_id(id@) && !old(self)@.dom().contains(
                prompt_path_spec(id@),
            ) && final(self)@ == old(self)@.insert(
                prompt_path_spec(id@),
                final(self)@[prompt_path_spec(id@)],
            ) && (match open_record_spec(final(self).key@, final(self)@[prompt_path_spec(id@)]) {
                Some(v) => v.id == id@ && v.title == title@ && v.content == content@ && v.tags
                    == tags.deep_view() && v.schema == (match schema {
                    Some(sc) => Some(sc@),
                    None => None,
                }),
                None => false,
            }),
            r is Err ==> final(self)@ == old(self)@ && final(self).files.entries@ == old(self).files.entries@,
            r matches Err(e) ==> e is Io || e is Crypto,
            (forall|idv: Seq<char>|
                wf_generated_id(idv) ==> vstd::utf8::encode_utf8(
                    record_json(
                        created_record(idv, title@, content@, tags.deep_view(), match schema {
                            Some(sc) => Some(sc@),
                            None => None,
                        }),
                    ),
                ).len() <= aead_pt_max()) ==> (r is Ok || (r matches Err(e) && e is Io)),
    {
        let mut id = fresh_id_candidate();
        let mut path = prompt_path(id.as_str());
        let mut attempts: usize = 0;
        while self.files.contains_key(&path)
            invariant
                self.wf(),
                self == old(self),
                wf_generated_id(id@),
                path@ == prompt_path_spec(id@),
                attempts <= 64,
            decreases 64 - attempts,
        {
            if attempts >= 64 {
                return Err(StoreError::Io("Unable to draw an unused id.".to_string()));
            }
            attempts += 1;
            id = fresh_id_candidate();
            path = prompt_path(id.as_str());
        }
        let pd = PromptData { id: id.clone(), title, content, tags, schema };
        proof {
            assert(pd@ == created_record(
                id@,
                pd.title@,
                pd.content@,
                pd.tags.deep_view(),
                pd@.schema,
            ));
        }
        self.store_record(path, &pd)?;
        Ok(id)
    }

    /// Saves an edited record: no change means no write and no backup; a
    /// change first copies the current sealed text to a timestamped backup,
    /// then seals and overwrites the record with a fresh nonce. The result
    /// reports whether anything was written.
    pub fn save_edited(&mut self, full_id: &str, edited: &PromptData, ts: &String) -> (r: Result<
        bool,
        StoreError,
    >)
        requires
            old(self).wf(),
        ensures
            final(self).wf(),
            final(self).key@ == old(self).key@,
            r matches Ok(changed) ==> {
                let path = prompt_path_spec(full_id@);
                let bak = backup_path_spec(
                    parse_id_spec_ws(full_id@),
                    parse_id_spec_local(full_id@),
                    ts@,
                );
                old(self)@.dom().contains(path) && (match open_record_spec(
                    old(self).key@,
                    old(self)@[path],
                ) {
                    Some(v) => (changed == (record_json(v) != record_json(edited@))) && (!changed
                        ==> final(self)@ == old(self)@) && (changed ==> final(self)@ == old(self)@.insert(bak, old(self)@[path]).insert(path, final(self)@[path])
                        && open_record_spec(final(self).key@, final(self)@[path]) == Some(edited@)),
                    None => false,
                })
            },
            r is Err ==> final(self)@ == old(self)@ && final(self).files.entries@ == old(self).files.entries@,
            r matches Err(e) ==> (e is NotFound <==> !old(self)@.dom().contains(
                prompt_path_spec(full_id@),
            )) && (e is NotFound || e is Crypto || e is Json),
            (old(self)@.dom().contains(prompt_path_spec(full_id@)) && (match open_record_spec(
                old(self).key@,
                old(self)@[prompt_path_spec(full_id@)],
            ) {
                Some(v) => record_json(v) == record_json(edited@),
                None => false,
            })) ==> (r matches Ok(changed) && !changed),
            (old(self)@.dom().contains(prompt_path_spec(full_id@)) && open_record_spec(
                old(self).key@,
                old(self)@[prompt_path_spec(full_id@)],
            ) is Some && vstd::utf8::encode_utf8(record_json(edited@)).len() <= aead_pt_max())
                ==> r is Ok,
    {
        let path = prompt_path(full_id);
        let (ws, local) = parse_id(full_id);
        let current = match self.files.get(&path) {
            Some(t) => t.clone(),
            None => {
                return Err(StoreError::NotFound(path));
            },
        };
        let original = decrypt_full_prompt(&self.key, &current)?;
        let orig_json = record_encode(&original);
        let new_json = record_encode(edited);
        if chars_eq(&orig_json, &new_json) {
            proof {
                assert(record_json(original@) == record_json(edited@));
            }
            return Ok(false);
        }
        let json_s = chars_to_string(&new_json);
        let sealed = seal_record_text(&self.key, &json_s)?;
        proof {
            crate::codec::lemma_record_round(edited@);
        }
        let bak = backup_path(&ws, &local, ts);
        self.files.insert(bak, current);
        self.files.insert(path, sealed);
        Ok(true)
    }

    /// Deletes the record at the id's path; `NotFound` when there is none.
    pub fn delete_prompt(&mut self, full_id: &str) -> (r: Result<(), StoreError>)
        requires
            old(self).wf(),
        ensures
            final(self).wf(),
            final(self).key@ == old(self).key@,
            r matches Ok(_) ==> old(self)@.dom().contains(prompt_path_spec(full_id@)) && final(self)@ == old(self)@.remove(prompt_path_spec(full_id@)),
            r matches Err(e) ==> e is NotFound && !old(self)@.dom().contains(
                prompt_path_spec(full_id@),
            ) && final(self)@ == old(self)@,
    {
        let path = prompt_path(full_id);
        if self.files.remove(&path) {
            Ok(())
        } else {
            Err(StoreError::NotFound(path))
        }
    }

    /// Gives the record at the id's path a new title, re-sealing it in place
    /// with a fresh nonce.
    pub fn rename_prompt(&mut self, full_id: &str, title: String) -> (r: Result<(), StoreError>)
        requires
            old(self).wf(),
        ensures
            final(self).wf(),
            final(self).key@ == old(self).key@,
            r matches Ok(_) ==> {
                let path = prompt_path_spec(full_id@);
                old(self)@.dom().contains(path) && (match open_record_spec(
                    old(self).key@,
                    old(self)@[path],
                ) {
                    Some(v) => final(self)@ == old(self)@.insert(path, final(self)@[path])
                        && open_record_spec(final(self).key@, final(self)@[path]) == Some(
                        RecordV { title: title@, ..v },
                    ),
                    None => false,
                })
            },
            r is Err ==> final(self)@ == old(self)@ && final(self).files.entries@ == old(self).files.entries@,
            r matches Err(e) ==> (e is NotFound <==> !old(self)@.dom().contains(
                prompt_path_spec(full_id@),
            )) && (e is NotFound || e is Crypto || e is Json),
            (old(self)@.dom().contains(prompt_path_spec(full_id@)) && (match open_record_spec(
                old(self).key@,
                old(self)@[prompt_path_spec(full_id@)],
            ) {
                Some(v) => vstd::utf8::encode_utf8(record_json(RecordV { title: title@, ..v })).len()
                    <= aead_pt_max(),
                None => false,
            })) ==> r is Ok,
    {
        let path = prompt_path(full_id);
        let current = match self.files.get(&path) {
            Some(t) => t.clone(),
            None => {
                return Err(StoreError::NotFound(path));
            },
        };
        let mut pd = decrypt_full_prompt(&self.key, &current)?;
        pd.title = title;
        let json = record_encode(&pd);
        let json_s = chars_to_string(&json);
        let sealed = seal_record_text(&self.key, &json_s)?;
        proof {
            crate::codec::lemma_record_round(pd@);
        }
        self.files.insert(path, sealed);
        Ok(())
    }
}

/// The record that creating a prompt stores, for a given generated id.
pub open spec fn created_record(
    id: Seq<char>,
    title: Seq<char>,
    content: Seq<char>,
    tags: Seq<Seq<char>>,
    schema: Option<SchemaV>,
) -> RecordV {
    RecordV { id, title, content, tags, schema }
}

/// The workspace part of an identifier.
pub open spec fn parse_id_spec_ws(id: Seq<char>) -> Seq<char> {
    crate::paths::parse_id_spec(id).0
}

/// The local part of an identifier.
pub open spec fn parse_id_spec_local(id: Seq<char>) -> Seq<char> {
    crate::paths::parse_id_spec(id).1
}

/// Compares two character vectors.
pub fn chars_eq(a: &Vec<char>, b: &Vec<char>) -> (r: bool)
    ensures
        r == (a@ == b@),
{
    let n = a.len();
    if b.len() != n {
        proof {
            assert(a@ != b@);
        }
        return false;
    }
    let mut i: usize = 0;
    while i < n
        invariant
            0 <= i <= n,
            n == a@.len() && n == b@.len(),
            forall|m: int| 0 <= m < i ==> a@[m] == b@[m],
        decreases n - i,
    {
        if a[i] != b[i] {
            return false;
        }
        i += 1;
    }
    proof {
        assert(a@ =~= b@);
    }
    true
}

/// The prefix shared by every backup of a record.
pub open spec fn backup_prefix_spec(ws: Seq<char>, local: Seq<char>) -> Seq<char> {
    ws_prefix() + ws + seq!['/'] + local + seq!['.']
}

/// Whether a path names a backup of the given record.
pub open spec fn is_backup_spec(ws: Seq<char>, local: Seq<char>, path: Seq<char>) -> bool {
    starts_with_spec(path, backup_prefix_spec(ws, local)) && ends_with_spec(path, bak_ext())
}

/// The path of a record file inside a named workspace.
pub open spec fn ws_record_path_spec(ws: Seq<char>, id: Seq<char>) -> Seq<char> {
    ws_prefix() + ws + seq!['/'] + id + prompt_ext()
}

fn build_backup_prefix(ws: &String, local: &String) -> (r: Vec<char>)
    ensures
        r@ == backup_prefix_spec(ws@, local@),
{
    let mut out: Vec<char> = Vec::new();
    out.push('w');
    out.push('o');
    out.push('r');
    out.push('k');
    out.push('s');
    out.push('p');
    out.push('a');
    out.push('c');
    out.push('e');
    out.push('s');
    out.push('/');
    let mut wc = str_to_chars(ws.as_str());
    out.append(&mut wc);
    out.push('/');
    let mut lc = str_to_chars(local.as_str());
    out.append(&mut lc);
    out.push('.');
    proof {
        assert(out@ =~= backup_prefix_spec(ws@, local@));
    }
    out
}

fn build_bak_ext() -> (r: Vec<char>)
    ensures
        r@ == bak_ext(),
{
    let mut out: Vec<char> = Vec::new();
    out.push('.');
    out.push('b');
    out.push('a');
    out.push('k');
    proof {
        assert(out@ =~= bak_ext());
    }
    out
}

fn build_ws_record_path(ws: &String, id: &String) -> (r: String)
    ensures
        r@ == ws_record_path_spec(ws@, id@),
{
    let mut out: Vec<char> = Vec::new();
    out.push('w');
    out.push('o');
    out.push('r');
    out.push('k');
    out.push('s');
    out.push('p');
    out.push('a');
    out.push('c');
    out.push('e');
    out.push('s');
    out.push('/');
    let mut wc = str_to_chars(ws.as_str());
    out.append(&mut wc);
    out.push('/');
    let mut ic = str_to_chars(id.as_str());
    out.append(&mut ic);
    out.push('.');
    out.push('p');
    out.push('r');
    out.push('o');
    out.push('m');
    out.push('p');
    out.push('t');
    proof {
        assert(out@ =~= ws_record_path_spec(ws@, id@));
    }
    chars_to_string(&out)
}

impl PromptStore {
    /// Rotates the master key: first confirms that every stored file opens
    /// under the current key, collecting the plaintexts; only then installs a
    /// fresh random key, re-seals every file under it with fresh nonces, and
    /// returns the new key file bytes (raw, or password-wrapped). If anything
    /// fails — any record that does not decrypt included — the key and every
    /// file are left exactly as they were.
    pub fn rotate(&mut self, new_password: Option<&str>) -> (r: Result<Vec<u8>, StoreError>)
        requires
            old(self).wf(),
        ensures
            final(self).wf(),
            r is Err ==> final(self).key@ == old(self).key@ && final(self).files.entries@ == old(self).files.entries@,
            (exists|i: int|
                0 <= i < old(self).files.entries@.len() && crate::crypto::open_bytes_spec(
                    old(self).key@,
                    old(self).files.entries@[i].1@,
                ) is None) ==> r is Err,
            ((forall|i: int|
                0 <= i < old(self).files.entries@.len() ==> (crate::crypto::open_bytes_spec(
                    old(self).key@,
                    #[trigger] old(self).files.entries@[i].1@,
                ) matches Some(p) && p.len() <= aead_pt_max())) && (match new_password {
                None => true,
                Some(pw) => vstd::utf8::encode_utf8(pw@).len() <= kdf_pwd_max(),
            })) ==> r is Ok,
            r matches Ok(keyfile) ==> final(self).key@.len() == 32 && final(self).files.entries@.len() == old(self).files.entries@.len() && (forall|i: int|
                0 <= i < old(self).files.entries@.len() ==> final(self).files.entries@[i].0
                    == old(self).files.entries@[i].0 && crate::crypto::open_bytes_spec(
                    final(self).key@,
                    #[trigger] final(self).files.entries@[i].1@,
                ) == crate::crypto::open_bytes_spec(
                    old(self).key@,
                    old(self).files.entries@[i].1@,
                )) && (match new_password {
                None => keyfile@ == final(self).key@,
                Some(pw) => crate::crypto::unwrap_key_spec(
                    keyfile@,
                    vstd::utf8::encode_utf8(pw@),
                ) == Some(final(self).key@) && crate::crypto::is_wrapped_spec(keyfile@),
            }),
    {
        let n = self.files.len();
        let mut plains: Vec<Vec<u8>> = Vec::new();
        let mut i: usize = 0;
        while i < n
            invariant
                self.wf(),
                self == old(self),
                0 <= i <= n,
                n == self.files.entries@.len(),
                plains@.len() == i,
                forall|j: int|
                    0 <= j < i ==> crate::crypto::open_bytes_spec(
                        self.key@,
                        #[trigger] self.files.entries@[j].1@,
                    ) == Some(plains@[j]@),
            decreases n - i,
        {
            let p = match open_record_bytes(&self.key, &self.files.entries[i].1) {
                Ok(p) => p,
                Err(e) => {
                    proof {
                        assert(crate::crypto::open_bytes_spec(
                            old(self).key@,
                            old(self).files.entries@[i as int].1@,
                        ) is None);
                    }
                    return Err(e);
                },
            };
            plains.push(p);
            i += 1;
        }
        let new_key = crate::trusted::random_bytes(32);
        let ghost nk = new_key@;
        let keyfile = match new_password {
            None => {
                let kf = crate::crypto::slice_range(&new_key, 0, new_key.len());
                proof {
                    assert(nk.subrange(0, nk.len() as int) =~= nk);
                }
                kf
            },
            Some(pw) => match crate::crypto::wrap_key_with_password(&new_key, pw) {
                Ok(kf) => kf,
                Err(e) => {
                    proof {
                        assert(vstd::utf8::encode_utf8(pw@).len() > kdf_pwd_max());
                    }
                    return Err(e);
                },
            },
        };
        proof {
            assert(match new_password {
                None => keyfile@ == nk,
                Some(pw) => crate::crypto::unwrap_key_spec(
                    keyfile@,
                    vstd::utf8::encode_utf8(pw@),
                ) == Some(nk) && crate::crypto::is_wrapped_spec(keyfile@),
            });
        }
        let mut sealed: Vec<String> = Vec::new();
        let mut i: usize = 0;
        while i < n
            invariant
                self.wf(),
                self == old(self),
                0 <= i <= n,
                n == self.files.entries@.len(),
                plains@.len() == n,
                new_key@.len() == 32,
                sealed@.len() == i,
                forall|j: int|
                    0 <= j < n ==> crate::crypto::open_bytes_spec(
                        self.key@,
                        #[trigger] self.files.entries@[j].1@,
                    ) == Some(plains@[j]@),
                forall|j: int|
                    0 <= j < i ==> crate::crypto::open_bytes_spec(
                        new_key@,
                        #[trigger] sealed@[j]@,
                    ) == Some(plains@[j]@),
            decreases n - i,
        {
            let s = match crate::crypto::seal_record_bytes(&new_key, &plains[i]) {
                Ok(s) => s,
                Err(e) => {
                    proof {
                        assert(plains@[i as int]@.len() > aead_pt_max());
                        assert(crate::crypto::open_bytes_spec(
                            old(self).key@,
                            old(self).files.entries@[i as int].1@,
                        ) == Some(plains@[i as int]@));
                    }
                    return Err(e);
                },
            };
            sealed.push(s);
            i += 1;
        }
        self.key = new_key;
        proof {
            assert(self.key@ == nk);
        }
        let mut i: usize = 0;
        while i < n
            invariant
                0 <= i <= n,
                n == self.files.entries@.len(),
                sealed@.len() == n,
                self.key@.len() == 32,
                self.key@ == nk,
                forall|j: int|
                    0 <= j < n ==> #[trigger] self.files.entries@[j].0 == old(self).files.entries@[j].0,
                forall|j: int|
                    0 <= j < i ==> #[trigger] self.files.entries@[j].1@ == sealed@[j]@,
                forall|j: int|
                    i <= j < n ==> #[trigger] self.files.entries@[j].1 == old(self).files.entries@[j].1,
                forall|j: int|
                    0 <= j < n ==> crate::crypto::open_bytes_spec(
                        self.key@,
                        #[trigger] sealed@[j]@,
                    ) == crate::crypto::open_bytes_spec(
                        old(self).key@,
                        old(self).files.entries@[j].1@,
                    ),
            decreases n - i,
        {
            let path = self.files.entries[i].0.clone();
            let s = sealed[i].clone();
            self.files.entries[i] = (path, s);
            i += 1;
        }
        proof {
            assert(self.files.wf()) by {
                assert(forall|p: int, q: int|
                    0 <= p < q < self.files.entries@.len()
                        ==> self.files.entries@[p].0@ != self.files.entries@[q].0@);
            }
            assert forall|i2: int| 0 <= i2 < old(self).files.entries@.len() implies
                self.files.entries@[i2].0 == old(self).files.entries@[i2].0
                    && crate::crypto::open_bytes_spec(
                    self.key@,
                    #[trigger] self.files.entries@[i2].1@,
                ) == crate::crypto::open_bytes_spec(
                    old(self).key@,
                    old(self).files.entries@[i2].1@,
                ) by {
                assert(self.files.entries@[i2].1@ == sealed@[i2]@);
                assert(crate::crypto::open_bytes_spec(self.key@, sealed@[i2]@)
                    == crate::crypto::open_bytes_spec(
                    old(self).key@,
                    old(self).files.entries@[i2].1@,
                ));
            }
            assert(self.key@.len() == 32);
            assert(self.files.entries@.len() == old(self).files.entries@.len());
            match new_password {
                None => {
                    assert(keyfile@ == self.key@);
                },
                Some(pw) => {
                    assert(crate::crypto::unwrap_key_spec(
                        keyfile@,
                        vstd::utf8::encode_utf8(pw@),
                    ) == Some(self.key@));
                },
            }
        }
        Ok(keyfile)
    }

    /// The backup paths that exist for a record, in store order.
    pub fn list_backups(&self, full_id: &str) -> (r: Vec<String>)
        requires
            self.wf(),
        ensures
            forall|k: int|
                0 <= k < r@.len() ==> is_backup_spec(
                    parse_id_spec_ws(full_id@),
                    parse_id_spec_local(full_id@),
                    #[trigger] r@[k]@,
                ) && self@.dom().contains(r@[k]@),
            forall|i: int|
                0 <= i < self.files.entries@.len() && is_backup_spec(
                    parse_id_spec_ws(full_id@),
                    parse_id_spec_local(full_id@),
                    #[trigger] self.files.entries@[i].0@,
                ) ==> exists|k: int| 0 <= k < r@.len() && r@[k]@ == self.files.entries@[i].0@,
    {
        let (ws, local) = parse_id(full_id);
        let prefix = build_backup_prefix(&ws, &local);
        let ext = build_bak_ext();
        let n = self.files.len();
        let mut out: Vec<String> = Vec::new();
        let mut i: usize = 0;
        while i < n
            invariant
                self.wf(),
                0 <= i <= n,
                n == self.files.entries@.len(),
                prefix@ == backup_prefix_spec(parse_id_spec_ws(full_id@), parse_id_spec_local(full_id@)),
                ext@ == bak_ext(),
                forall|k: int|
                    0 <= k < out@.len() ==> is_backup_spec(
                        parse_id_spec_ws(full_id@),
                        parse_id_spec_local(full_id@),
                        #[trigger] out@[k]@,
                    ) && self@.dom().contains(out@[k]@),
                forall|j: int|
                    0 <= j < i && is_backup_spec(
                        parse_id_spec_ws(full_id@),
                        parse_id_spec_local(full_id@),
                        #[trigger] self.files.entries@[j].0@,
                    ) ==> exists|k: int|
                        0 <= k < out@.len() && out@[k]@ == self.files.entries@[j].0@,
            decreases n - i,
        {
            let pathc = str_to_chars(self.files.entries[i].0.as_str());
            let ghost wsv = parse_id_spec_ws(full_id@);
            let ghost localv = parse_id_spec_local(full_id@);
            if chars_starts_with(&pathc, &prefix) && chars_ends_with(&pathc, &ext) {
                proof {
                    crate::kvmap::lemma_entries_get(self.files.entries@, i as int);
                }
                let ghost before = out@;
                out.push(self.files.entries[i].0.clone());
                proof {
                    assert(out@[before.len() as int]@ == self.files.entries@[i as int].0@);
                    assert(forall|k: int| 0 <= k < before.len() ==> out@[k] == before[k]);
                    assert forall|j: int|
                        0 <= j < i + 1 && is_backup_spec(
                            wsv,
                            localv,
                            #[trigger] self.files.entries@[j].0@,
                        ) implies exists|k: int|
                        0 <= k < out@.len() && out@[k]@ == self.files.entries@[j].0@ by {
                        if j == i {
                            assert(out@[before.len() as int]@ == self.files.entries@[j].0@);
                        } else {
                            let k0 = choose|k: int|
                                0 <= k < before.len() && before[k]@ == self.files.entries@[j].0@;
                            assert(out@[k0]@ == self.files.entries@[j].0@);
                        }
                    }
                }
            } else {
                proof {
                    assert(!is_backup_spec(wsv, localv, self.files.entries@[i as int].0@));
                }
            }
            i += 1;
        }
        out
    }

    /// Restores a record from a backup: the one with the given timestamp, or
    /// the most recent one. The current sealed text is itself backed up first
    /// under `now_ts`, so a revert can be reverted.
    pub fn revert(&mut self, full_id: &str, ts: Option<&String>, now_ts: &String) -> (r: Result<
        (),
        StoreError,
    >)
        requires
            old(self).wf(),
        ensures
            final(self).wf(),
            final(self).key@ == old(self).key@,
            r is Err ==> final(self).files.entries@ == old(self).files.entries@,
            r matches Err(e) ==> e is NotFound,
            (old(self)@.dom().contains(prompt_path_spec(full_id@)) && (match ts {
                Some(t) => old(self)@.dom().contains(
                    backup_path_spec(parse_id_spec_ws(full_id@), parse_id_spec_local(full_id@), t@),
                ),
                None => exists|i: int|
                    0 <= i < old(self).files.entries@.len() && is_backup_spec(
                        parse_id_spec_ws(full_id@),
                        parse_id_spec_local(full_id@),
                        #[trigger] old(self).files.entries@[i].0@,
                    ),
            })) ==> r is Ok,
            r matches Ok(_) ==> {
                let ws = parse_id_spec_ws(full_id@);
                let local = parse_id_spec_local(full_id@);
                let main = prompt_path_spec(full_id@);
                exists|tp: Seq<char>|
                    #![auto]
                    old(self)@.dom().contains(tp) && is_backup_spec(ws, local, tp) && (
                    ts matches Some(t) ==> tp == backup_path_spec(ws, local, t@)) && (ts is None
                        ==> forall|i: int|
                        0 <= i < old(self).files.entries@.len() && is_backup_spec(
                            ws,
                            local,
                            #[trigger] old(self).files.entries@[i].0@,
                        ) ==> !lex_lt(tp, old(self).files.entries@[i].0@)) && old(self)@.dom().contains(main) && final(self)@ == old(self)@.insert(
                        backup_path_spec(ws, local, now_ts@),
                        old(self)@[main],
                    ).insert(main, old(self)@[tp])
            },
    {
        let (ws, local) = parse_id(full_id);
        let prefix = build_backup_prefix(&ws, &local);
        let ext = build_bak_ext();
        let n = self.files.len();
        let ghost wsv = parse_id_spec_ws(full_id@);
        let ghost localv = parse_id_spec_local(full_id@);
        let mut best: Option<String> = None;
        let mut i: usize = 0;
        while i < n
            invariant
                self.wf(),
                self == old(self),
                0 <= i <= n,
                n == self.files.entries@.len(),
                prefix@ == backup_prefix_spec(wsv, localv),
                ext@ == bak_ext(),
                wsv == parse_id_spec_ws(full_id@),
                localv == parse_id_spec_local(full_id@),
                best matches Some(b) ==> is_backup_spec(wsv, localv, b@) && self@.dom().contains(
                    b@,
                ),
                best matches Some(b) ==> forall|j: int|
                    0 <= j < i && is_backup_spec(
                        wsv,
                        localv,
                        #[trigger] self.files.entries@[j].0@,
                    ) ==> !lex_lt(b@, self.files.entries@[j].0@),
                best is None ==> forall|j: int|
                    0 <= j < i ==> !is_backup_spec(
                        wsv,
                        localv,
                        #[trigger] self.files.entries@[j].0@,
                    ),
            decreases n - i,
        {
            let pathc = str_to_chars(self.files.entries[i].0.as_str());
            if chars_starts_with(&pathc, &prefix) && chars_ends_with(&pathc, &ext) {
                proof {
                    crate::kvmap::lemma_entries_get(self.files.entries@, i as int);
                }
                match &best {
                    None => {
                        best = Some(self.files.entries[i].0.clone());
                        proof {
                            crate::text::lemma_lex_irrefl(self.files.entries@[i as int].0@);
                        }
                    },
                    Some(b) => {
                        let bc = str_to_chars(b.as_str());
                        let ghost bv = b@;
                        let ghost ev = self.files.entries@[i as int].0@;
                        if chars_lex_lt(&bc, &pathc) {
                            best = Some(self.files.entries[i].0.clone());
                            proof {
                                assert forall|j: int|
                                    0 <= j < i + 1 && is_backup_spec(
                                        wsv,
                                        localv,
                                        #[trigger] self.files.entries@[j].0@,
                                    ) implies !lex_lt(ev, self.files.entries@[j].0@) by {
                                    if j < i {
                                        if lex_lt(ev, self.files.entries@[j].0@) {
                                            crate::text::lemma_lex_trans(
                                                bv,
                                                ev,
                                                self.files.entries@[j].0@,
                                            );
                                        }
                                    } else {
                                        crate::text::lemma_lex_irrefl(ev);
                                    }
                                }
                            }
                        }
                    },
                }
            }
            i += 1;
        }
        let target: String = match ts {
            Some(t) => {
                let tp = backup_path(&ws, &local, t);
                if !self.files.contains_key(&tp) {
                    return Err(StoreError::NotFound("Timestamp not found".to_string()));
                }
                proof {
                    assert(is_backup_spec(wsv, localv, tp@)) by {
                        assert(tp@.subrange(0, backup_prefix_spec(wsv, localv).len() as int)
                            =~= backup_prefix_spec(wsv, localv));
                        assert(tp@.subrange(
                            tp@.len() - bak_ext().len(),
                            tp@.len() as int,
                        ) =~= bak_ext());
                    }
                }
                tp
            },
            None => {
                match best {
                    Some(b) => b,
                    None => {
                        return Err(StoreError::NotFound("No backups found".to_string()));
                    },
                }
            },
        };
        let main = prompt_path(full_id);
        let current = match self.files.get(&main) {
            Some(c) => c.clone(),
            None => {
                return Err(StoreError::NotFound("Main prompt missing".to_string()));
            },
        };
        let restored = match self.files.get(&target) {
            Some(c) => c.clone(),
            None => {
                return Err(StoreError::NotFound("No backups found".to_string()));
            },
        };
        let bak_now = backup_path(&ws, &local, now_ts);
        self.files.insert(bak_now, current);
        self.files.insert(main, restored);
        Ok(())
    }
}

/// The path prefix of a pack's workspace.
pub open spec fn pack_prefix_spec(alias: Seq<char>) -> Seq<char> {
    ws_prefix() + alias + seq!['/']
}

fn build_pack_prefix(alias: &String) -> (r: Vec<char>)
    ensures
        r@ == pack_prefix_spec(alias@),
{
    let mut out: Vec<char> = Vec::new();
    out.push('w');
    out.push('o');
    out.push('r');
    out.push('k');
    out.push('s');
    out.push('p');
    out.push('a');
    out.push('c');
    out.push('e');
    out.push('s');
    out.push('/');
    let mut ac = str_to_chars(alias.as_str());
    out.append(&mut ac);
    out.push('/');
    proof {
        assert(out@ =~= pack_prefix_spec(alias@));
    }
    out
}

impl PromptStore {
    /// Seals and stores a chain's metadata record.
    pub fn store_chain_meta(&mut self, cd: &ChainData) -> (r: Result<(), StoreError>)
        requires
            old(self).wf(),
        ensures
            final(self).wf(),
            final(self).key@ == old(self).key@,
            r matches Ok(_) ==> final(self)@ == old(self)@.insert(
                chain_meta_path_spec(cd.id@),
                final(self)@[chain_meta_path_spec(cd.id@)],
            ) && (match open_text_spec(
                final(self).key@,
                final(self)@[chain_meta_path_spec(cd.id@)],
            ) {
                Some(s) => chain_parse(s) == Some((cd.id@, cd.title@)),
                None => false,
            }),
            r is Err ==> final(self)@ == old(self)@ && final(self).files.entries@ == old(self).files.entries@,
            r matches Err(e) ==> e is Crypto,
            vstd::utf8::encode_utf8(chain_json(cd.id@, cd.title@)).len() <= aead_pt_max()
                ==> r is Ok,
    {
        let json = chain_encode(cd);
        let json_s = chars_to_string(&json);
        let sealed = seal_record_text(&self.key, &json_s)?;
        proof {
            crate::codec::lemma_chain_round(cd.id@, cd.title@);
        }
        let path = chain_meta_path(&cd.id);
        self.files.insert(path, sealed);
        Ok(())
    }

    /// Creates a new chain: draws a fresh id whose metadata path is unused
    /// and stores the metadata record.
    pub fn create_chain(&mut self, title: String) -> (r: Result<String, StoreError>)
        requires
            old(self).wf(),
        ensures
            final(self).wf(),
            final(self).key@ == old(self).key@,
            r matches Ok(id) ==> wf_generated_id(id@) && !old(self)@.dom().contains(
                chain_meta_path_spec(id@),
            ) && final(self)@ == old(self)@.insert(
                chain_meta_path_spec(id@),
                final(self)@[chain_meta_path_spec(id@)],
            ) && (match open_text_spec(
                final(self).key@,
                final(self)@[chain_meta_path_spec(id@)],
            ) {
                Some(s) => chain_parse(s) == Some((id@, title@)),
                None => false,
            }),
            r is Err ==> final(self)@ == old(self)@ && final(self).files.entries@ == old(self).files.entries@,
            r matches Err(e) ==> e is Io || e is Crypto,
            (forall|idv: Seq<char>|
                wf_generated_id(idv) ==> vstd::utf8::encode_utf8(chain_json(idv, title@)).len()
                    <= aead_pt_max()) ==> (r is Ok || (r matches Err(e) && e is Io)),
    {
        let mut id = fresh_id_candidate();
        let mut path = chain_meta_path(&id);
        let mut attempts: usize = 0;
        while self.files.contains_key(&path)
            invariant
                self.wf(),
                self == old(self),
                wf_generated_id(id@),
                path@ == chain_meta_path_spec(id@),
                attempts <= 64,
            decreases 64 - attempts,
        {
            if attempts >= 64 {
                return Err(StoreError::Io("Unable to draw an unused id.".to_string()));
            }
            attempts += 1;
            id = fresh_id_candidate();
            path = chain_meta_path(&id);
        }
        let cd = ChainData { id: id.clone(), title };
        self.store_chain_meta(&cd)?;
        Ok(id)
    }

    /// Reads and decodes a chain's metadata record.
    pub fn get_chain_meta(&self, chain_id: &String) -> (r: Result<ChainData, StoreError>)
        requires
            self.wf(),
        ensures
            r matches Ok(cd) ==> self@.dom().contains(chain_meta_path_spec(chain_id@)) && (
            match open_text_spec(self.key@, self@[chain_meta_path_spec(chain_id@)]) {
                Some(s) => chain_parse(s) == Some((cd.id@, cd.title@)),
                None => false,
            }),
            r matches Err(e) ==> (!self@.dom().contains(chain_meta_path_spec(chain_id@))
                && e is NotFound) || (self@.dom().contains(chain_meta_path_spec(chain_id@)) && (
            match open_text_spec(self.key@, self@[chain_meta_path_spec(chain_id@)]) {
                Some(s) => chain_parse(s) is None,
                None => true,
            }) && (e is Crypto || e is Json)),
            (self@.dom().contains(chain_meta_path_spec(chain_id@)) && (match open_text_spec(
                self.key@,
                self@[chain_meta_path_spec(chain_id@)],
            ) {
                Some(s) => chain_parse(s) is Some,
                None => false,
            })) ==> r is Ok,
    {
        let path = chain_meta_path(chain_id);
        match self.files.get(&path) {
            None => Err(StoreError::NotFound(path)),
            Some(text) => decrypt_chain_meta(&self.key, text),
        }
    }

    /// Gives a chain a new title, keeping its id, re-sealing its metadata.
    pub fn set_chain_title(&mut self, chain_id: &String, title: String) -> (r: Result<
        (),
        StoreError,
    >)
        requires
            old(self).wf(),
        ensures
            final(self).wf(),
            final(self).key@ == old(self).key@,
            r matches Ok(_) ==> old(self)@.dom().contains(chain_meta_path_spec(chain_id@)) && (
            match open_text_spec(
                final(self).key@,
                final(self)@[chain_meta_path_spec(chain_id@)],
            ) {
                Some(s) => exists|oldid: Seq<char>|
                    #![auto]
                    chain_parse(s) == Some((oldid, title@)),
                None => false,
            }),
            r is Err ==> final(self)@ == old(self)@ && final(self).files.entries@ == old(self).files.entries@,
            r matches Err(e) ==> (e is NotFound <==> !old(self)@.dom().contains(
                chain_meta_path_spec(chain_id@),
            )) && (e is NotFound || e is Crypto || e is Json),
            (old(self)@.dom().contains(chain_meta_path_spec(chain_id@)) && (match open_text_spec(
                old(self).key@,
                old(self)@[chain_meta_path_spec(chain_id@)],
            ) {
                Some(s) => match chain_parse(s) {
                    Some(p) => vstd::utf8::encode_utf8(chain_json(p.0, title@)).len()
                        <= aead_pt_max(),
                    None => false,
                },
                None => false,
            })) ==> r is Ok,
    {
        let cd = self.get_chain_meta(chain_id)?;
        let renamed = ChainData { id: cd.id, title };
        let json = chain_encode(&renamed);
        let json_s = chars_to_string(&json);
        let sealed = seal_record_text(&self.key, &json_s)?;
        proof {
            crate::codec::lemma_chain_round(renamed.id@, renamed.title@);
        }
        let path = chain_meta_path(chain_id);
        self.files.insert(path, sealed);
        Ok(())
    }

    /// Stores one numbered step record inside a chain of the default
    /// workspace; the chain's metadata must exist.
    pub fn store_chain_step(&mut self, chain_id: &String, step: &String, pd: &PromptData) -> (r:
        Result<(), StoreError>)
        requires
            old(self).wf(),
        ensures
            final(self).wf(),
            final(self).key@ == old(self).key@,
            r matches Ok(_) ==> old(self)@.dom().contains(chain_meta_path_spec(chain_id@))
                && final(self)@ == old(self)@.insert(
                crate::paths::chain_step_path_spec(chain_id@, step@),
                final(self)@[crate::paths::chain_step_path_spec(chain_id@, step@)],
            ) && open_record_spec(
                final(self).key@,
                final(self)@[crate::paths::chain_step_path_spec(chain_id@, step@)],
            ) == Some(pd@),
            r is Err ==> final(self)@ == old(self)@ && final(self).files.entries@ == old(self).files.entries@,
            r matches Err(e) ==> (e is NotFound <==> !old(self)@.dom().contains(
                chain_meta_path_spec(chain_id@),
            )) && (e is NotFound || e is Crypto),
            (old(self)@.dom().contains(chain_meta_path_spec(chain_id@)) && vstd::utf8::encode_utf8(
                record_json(pd@),
            ).len() <= aead_pt_max()) ==> r is Ok,
    {
        let meta = chain_meta_path(chain_id);
        if !self.files.contains_key(&meta) {
            return Err(StoreError::NotFound(meta));
        }
        let path = crate::paths::chain_step_path(chain_id, step);
        self.store_record(path, pd)
    }

    /// Imports an encrypted chain definition: seals the given text under the
    /// chain file path; an id already in use is refused.
    pub fn import_chain_definition(&mut self, full_id: &str, definition: &String) -> (r: Result<
        (),
        StoreError,
    >)
        requires
            old(self).wf(),
        ensures
            final(self).wf(),
            final(self).key@ == old(self).key@,
            r matches Ok(_) ==> !old(self)@.dom().contains(
                crate::paths::chain_file_path_spec(full_id@),
            ) && final(self)@ == old(self)@.insert(
                crate::paths::chain_file_path_spec(full_id@),
                final(self)@[crate::paths::chain_file_path_spec(full_id@)],
            ) && open_text_spec(
                final(self).key@,
                final(self)@[crate::paths::chain_file_path_spec(full_id@)],
            ) == Some(definition@),
            r is Err ==> final(self)@ == old(self)@ && final(self).files.entries@ == old(self).files.entries@,
            r matches Err(e) ==> (e is Configuration <==> old(self)@.dom().contains(
                crate::paths::chain_file_path_spec(full_id@),
            )) && (e is Configuration || e is Crypto),
            (!old(self)@.dom().contains(crate::paths::chain_file_path_spec(full_id@))
                && vstd::utf8::encode_utf8(definition@).len() <= aead_pt_max()) ==> r is Ok,
    {
        let path = crate::paths::chain_file_path(full_id);
        if self.files.contains_key(&path) {
            return Err(
                StoreError::Configuration("A chain with this id already exists.".to_string()),
            );
        }
        let sealed = seal_record_text(&self.key, definition)?;
        self.files.insert(path, sealed);
        Ok(())
    }

    /// Reads and opens an encrypted chain definition.
    pub fn read_chain_definition(&self, full_id: &str) -> (r: Result<String, StoreError>)
        requires
            self.wf(),
        ensures
            r matches Ok(s) ==> self@.dom().contains(crate::paths::chain_file_path_spec(full_id@))
                && open_text_spec(
                self.key@,
                self@[crate::paths::chain_file_path_spec(full_id@)],
            ) == Some(s@),
            r matches Err(e) ==> (!self@.dom().contains(crate::paths::chain_file_path_spec(full_id@))
                && e is NotFound) || (self@.dom().contains(
                crate::paths::chain_file_path_spec(full_id@),
            ) && open_text_spec(
                self.key@,
                self@[crate::paths::chain_file_path_spec(full_id@)],
            ) is None && (e is Crypto || e is Json)),
            (self@.dom().contains(crate::paths::chain_file_path_spec(full_id@)) && open_text_spec(
                self.key@,
                self@[crate::paths::chain_file_path_spec(full_id@)],
            ) is Some) ==> r is Ok,
    {
        let path = crate::paths::chain_file_path(full_id);
        match self.files.get(&path) {
            None => Err(StoreError::NotFound(path)),
            Some(text) => open_record_text(&self.key, text),
        }
    }

    /// Installs a pack: seals every given record first — so a failure leaves
    /// the store untouched — then removes every file of the pack's workspace
    /// and stores each record into it under its own id; a later record wins a
    /// duplicated id. Files outside the pack's workspace are kept unchanged,
    /// and success is promised when every record is within the cipher's
    /// length bound.
    #[verifier::rlimit(100)]
    #[verifier::spinoff_prover]
    pub fn install_pack(&mut self, alias: &String, prompts: &Vec<PromptData>) -> (r: Result<
        usize,
        StoreError,
    >)
        requires
            old(self).wf(),
        ensures
            final(self).wf(),
            final(self).key@ == old(self).key@,
            r matches Ok(n) ==> n == prompts@.len() && (forall|p: Seq<char>|
                old(self)@.dom().contains(p) && !starts_with_spec(p, pack_prefix_spec(alias@))
                    ==> final(self)@.dom().contains(p) && final(self)@[p] == #[trigger] old(
                    self,
                )@[p]) && (forall|k: int|
                0 <= k < prompts@.len() ==> final(self)@.dom().contains(
                    ws_record_path_spec(alias@, #[trigger] prompts@[k].id@),
                )) && (forall|k: int|
                #![trigger prompts@[k]@]
                0 <= k < prompts@.len() && (forall|j: int|
                    k < j < prompts@.len() ==> prompts@[j].id@ != prompts@[k].id@)
                    ==> open_record_spec(
                    final(self).key@,
                    final(self)@[ws_record_path_spec(alias@, prompts@[k].id@)],
                ) == Some(prompts@[k]@)),
            r is Err ==> final(self)@ == old(self)@ && final(self).files.entries@ == old(self).files.entries@,
            r matches Err(e) ==> e is Crypto,
            (forall|k: int|
                0 <= k < prompts@.len() ==> vstd::utf8::encode_utf8(
                    record_json(#[trigger] prompts@[k]@),
                ).len() <= aead_pt_max()) ==> r is Ok,
    {
        let ghost m0 = self@;
        let mut sealed: Vec<String> = Vec::new();
        let mut s: usize = 0;
        while s < prompts.len()
            invariant
                self.wf(),
                self == old(self),
                0 <= s <= prompts@.len(),
                sealed@.len() == s,
                forall|j: int|
                    0 <= j < s ==> open_record_spec(self.key@, #[trigger] sealed@[j]@) == Some(
                        prompts@[j]@,
                    ),
            decreases prompts@.len() - s,
        {
            let json = record_encode(&prompts[s]);
            let json_s = chars_to_string(&json);
            let txt = match seal_record_text(&self.key, &json_s) {
                Ok(txt) => txt,
                Err(e) => {
                    proof {
                        assert(vstd::utf8::encode_utf8(record_json(prompts@[s as int]@)).len()
                            > aead_pt_max());
                    }
                    return Err(e);
                },
            };
            proof {
                crate::codec::lemma_record_round(prompts@[s as int]@);
            }
            sealed.push(txt);
            s += 1;
        }
        let prefix_chars = build_pack_prefix(alias);
        let mut doomed: Vec<String> = Vec::new();
        let n0 = self.files.len();
        let mut i: usize = 0;
        while i < n0
            invariant
                self.wf(),
                self == old(self),
                0 <= i <= n0,
                n0 == self.files.entries@.len(),
                prefix_chars@ == pack_prefix_spec(alias@),
                forall|k: int|
                    0 <= k < doomed@.len() ==> starts_with_spec(
                        #[trigger] doomed@[k]@,
                        pack_prefix_spec(alias@),
                    ),
            decreases n0 - i,
        {
            let pathc = str_to_chars(self.files.entries[i].0.as_str());
            if chars_starts_with(&pathc, &prefix_chars) {
                doomed.push(self.files.entries[i].0.clone());
            }
            i += 1;
        }
        let mut d: usize = 0;
        while d < doomed.len()
            invariant
                self.wf(),
                self.key@ == old(self).key@,
                0 <= d <= doomed@.len(),
                forall|k: int|
                    0 <= k < doomed@.len() ==> starts_with_spec(
                        #[trigger] doomed@[k]@,
                        pack_prefix_spec(alias@),
                    ),
                forall|p: Seq<char>|
                    #![trigger m0.dom().contains(p)]
                    m0.dom().contains(p) && !starts_with_spec(
                        p,
                        pack_prefix_spec(alias@),
                    ) ==> self@.dom().contains(p) && self@[p] == m0[p],
            decreases doomed@.len() - d,
        {
            let ghost dk = doomed@[d as int]@;
            let ghost prev = self@;
            proof {
                assert(starts_with_spec(dk, pack_prefix_spec(alias@)));
            }
            self.files.remove(&doomed[d]);
            proof {
                assert(self@ == prev.remove(dk));
                assert forall|p: Seq<char>|
                    #![trigger m0.dom().contains(p)]
                    m0.dom().contains(p) && !starts_with_spec(
                        p,
                        pack_prefix_spec(alias@),
                    ) implies self@.dom().contains(p) && self@[p] == m0[p] by {
                    assert(p != dk);
                    assert(prev.dom().contains(p) && prev[p] == m0[p]);
                }
            }
            d += 1;
        }
        let mut k: usize = 0;
        while k < prompts.len()
            invariant
                self.wf(),
                self.key@ == old(self).key@,
                0 <= k <= prompts@.len(),
                sealed@.len() == prompts@.len(),
                forall|j: int|
                    0 <= j < prompts@.len() ==> open_record_spec(
                        self.key@,
                        #[trigger] sealed@[j]@,
                    ) == Some(prompts@[j]@),
                forall|p: Seq<char>|
                    #![trigger m0.dom().contains(p)]
                    m0.dom().contains(p) && !starts_with_spec(
                        p,
                        pack_prefix_spec(alias@),
                    ) ==> self@.dom().contains(p) && self@[p] == m0[p],
                forall|k2: int|
                    0 <= k2 < k ==> self@.dom().contains(
                        ws_record_path_spec(alias@, #[trigger] prompts@[k2].id@),
                    ),
                forall|k2: int|
                    #![trigger prompts@[k2]@]
                    0 <= k2 < k && (forall|j: int|
                        k2 < j < k ==> prompts@[j].id@ != prompts@[k2].id@) ==> open_record_spec(
                        self.key@,
                        self@[ws_record_path_spec(alias@, prompts@[k2].id@)],
                    ) == Some(prompts@[k2]@),
            decreases prompts@.len() - k,
        {
            let path = build_ws_record_path(alias, &prompts[k].id);
            let txt = sealed[k].clone();
            let ghost prev = self@;
            proof {
                assert(starts_with_spec(path@, pack_prefix_spec(alias@))) by {
                    assert(path@.subrange(0, pack_prefix_spec(alias@).len() as int)
                        =~= pack_prefix_spec(alias@));
                }
            }
            self.files.insert(path, txt);
            proof {
                assert(self@ == prev.insert(
                    ws_record_path_spec(alias@, prompts@[k as int].id@),
                    sealed@[k as int]@,
                ));
                assert forall|p: Seq<char>|
                    #![trigger m0.dom().contains(p)]
                    m0.dom().contains(p) && !starts_with_spec(
                        p,
                        pack_prefix_spec(alias@),
                    ) implies self@.dom().contains(p) && self@[p] == m0[p] by {
                    assert(p != ws_record_path_spec(alias@, prompts@[k as int].id@));
                    assert(prev.dom().contains(p) && prev[p] == m0[p]);
                }
                assert forall|k2: int|
                    0 <= k2 < k + 1 && (forall|j: int|
                        k2 < j < k + 1 ==> prompts@[j].id@ != prompts@[k2].id@)
                    implies open_record_spec(
                    self.key@,
                    self@[ws_record_path_spec(alias@, prompts@[k2].id@)],
                ) == Some(prompts@[k2]@) by {
                    if k2 < k {
                        assert(prompts@[k as int].id@ != prompts@[k2].id@);
                        lemma_ws_path_injective(alias@, prompts@[k as int].id@, prompts@[k2].id@);
                        assert(self@[ws_record_path_spec(alias@, prompts@[k2].id@)]
                            == prev[ws_record_path_spec(alias@, prompts@[k2].id@)]);
                    }
                }
            }
            k += 1;
        }
        proof {
            assert(m0 == old(self)@);
        }
        Ok(prompts.len())
    }
}

/// Distinct ids give distinct workspace record paths.
pub proof fn lemma_ws_path_injective(alias: Seq<char>, a: Seq<char>, b: Seq<char>)
    requires
        a != b,
    ensures
        ws_record_path_spec(alias, a) != ws_record_path_spec(alias, b),
{
    let pa = ws_record_path_spec(alias, a);
    let pb = ws_record_path_spec(alias, b);
    if pa == pb {
        let base = (ws_prefix() + alias + seq!['/']).len() as int;
        assert(a.len() == pa.len() - base - prompt_ext().len());
        assert(b.len() == pb.len() - base - prompt_ext().len());
        assert(a =~= pa.subrange(base, base + a.len() as int));
        assert(b =~= pb.subrange(base, base + b.len() as int));
    }
}

/// The first position whose entry carries the alias.
pub open spec fn first_alias_idx(list: Seq<DeployedInfo>, alias: Seq<char>, i: int) -> Option<int>
    decreases list.len() - i,
{
    if i < 0 || i >= list.len() {
        None
    } else if list[i].alias@ == alias {
        Some(i)
    } else {
        first_alias_idx(list, alias, i + 1)
    }
}

/// Records a deployment: replaces the first entry with the same alias, or
/// appends the new one.
pub fn upsert_deployed(list: Vec<DeployedInfo>, info: DeployedInfo) -> (r: Vec<DeployedInfo>)
    ensures
        match first_alias_idx(list@, info.alias@, 0) {
            Some(i) => r@ == list@.update(i, info),
            None => r@ == list@.push(info),
        },
{
    let n = list.len();
    let mut i: usize = 0;
    while i < n
        invariant
            0 <= i <= n,
            n == list@.len(),
            first_alias_idx(list@, info.alias@, 0) == first_alias_idx(list@, info.alias@, i as int),
        decreases n - i,
    {
        if list[i].alias == info.alias {
            let mut list = list;
            list[i] = info;
            return list;
        }
        i += 1;
    }
    let mut list = list;
    list.push(info);
    list
}

} // verus!
