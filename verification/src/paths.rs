//! Addressing: prompt identifiers, workspaces and the relative paths of
//! record files inside the store.
//!
//! An id is `local_id` (implicitly in the `default` workspace) or
//! `workspace::local_id`; a chain step id is `chain_id/step_number`.

use crate::trusted::{chars_to_string, random_bytes, str_to_chars};
use vstd::prelude::*;

verus! {

/// Whether the two-character workspace separator stands at `i`.
pub open spec fn sep_at(s: Seq<char>, i: int) -> bool {
    0 <= i && i + 2 <= s.len() && s[i] == ':' && s[i + 1] == ':'
}

/// The first index with the workspace separator, from `i` on.
pub open spec fn first_sep(s: Seq<char>, i: int) -> Option<int>
    decreases s.len() - i,
{
    if i < 0 || i + 2 > s.len() {
        None
    } else if sep_at(s, i) {
        Some(i)
    } else {
        first_sep(s, i + 1)
    }
}

pub open spec fn default_ws() -> Seq<char> {
    seq!['d', 'e', 'f', 'a', 'u', 'l', 't']
}

/// The workspace and local id an identifier denotes: split at the first
/// `::`, or the `default` workspace when none occurs.
pub open spec fn parse_id_spec(s: Seq<char>) -> (Seq<char>, Seq<char>) {
    match first_sep(s, 0) {
        Some(i) => (s.subrange(0, i), s.subrange(i + 2, s.len() as int)),
        None => (default_ws(), s),
    }
}

pub proof fn lemma_first_sep_bounds(s: Seq<char>, i: int)
    requires
        0 <= i,
    ensures
        first_sep(s, i) matches Some(j) ==> i <= j && j + 2 <= s.len() && sep_at(s, j),
    decreases s.len() - i,
{
    if !(i + 2 > s.len()) && !sep_at(s, i) {
        lemma_first_sep_bounds(s, i + 1);
    }
}

/// Finds the first workspace separator.
fn scan_sep(t: &Vec<char>) -> (r: Option<usize>)
    ensures
        r matches Some(j) ==> first_sep(t@, 0) == Some(j as int),
        r is None ==> first_sep(t@, 0) is None,
{
    let n = t.len();
    if n < 2 {
        return None;
    }
    let mut i: usize = 0;
    while i < n - 1
        invariant
            0 <= i <= n,
            n >= 2,
            n == t@.len(),
            first_sep(t@, 0) == first_sep(t@, i as int),
        decreases n - i,
    {
        if t[i] == ':' && t[i + 1] == ':' {
            return Some(i);
        }
        i += 1;
    }
    None
}

/// Copies a character range out of a vector.
pub fn chars_range(t: &Vec<char>, from: usize, to: usize) -> (r: Vec<char>)
    requires
        from <= to <= t@.len(),
    ensures
        r@ == t@.subrange(from as int, to as int),
{
    let mut out: Vec<char> = Vec::new();
    let mut i = from;
    while i < to
        invariant
            from <= i <= to <= t@.len(),
            out@ =~= t@.subrange(from as int, i as int),
        decreases to - i,
    {
        out.push(t[i]);
        proof {
            assert(out@ =~= t@.subrange(from as int, i + 1));
        }
        i += 1;
    }
    out
}

/// Parses a prompt identifier into its workspace and local id. With no `::`
/// the workspace is `default`.
pub fn parse_id(id: &str) -> (r: (String, String))
    ensures
        r.0@ == parse_id_spec(id@).0,
        r.1@ == parse_id_spec(id@).1,
{
    let t = str_to_chars(id);
    match scan_sep(&t) {
        Some(i) => {
            proof {
                lemma_first_sep_bounds(t@, 0);
            }
            let end = t.len();
            let ws = chars_range(&t, 0, i);
            let local = chars_range(&t, i + 2, end);
            (chars_to_string(&ws), chars_to_string(&local))
        },
        None => {
            let mut ws: Vec<char> = Vec::new();
            ws.push('d');
            ws.push('e');
            ws.push('f');
            ws.push('a');
            ws.push('u');
            ws.push('l');
            ws.push('t');
            proof {
                assert(ws@ =~= default_ws());
                assert(t@.subrange(0, t@.len() as int) =~= t@);
            }
            let local = chars_range(&t, 0, t.len());
            (chars_to_string(&ws), chars_to_string(&local))
        },
    }
}

pub open spec fn ws_prefix() -> Seq<char> {
    seq!['w', 'o', 'r', 'k', 's', 'p', 'a', 'c', 'e', 's', '/']
}

pub open spec fn prompt_ext() -> Seq<char> {
    seq!['.', 'p', 'r', 'o', 'm', 'p', 't']
}

pub open spec fn chains_seg() -> Seq<char> {
    seq!['c', 'h', 'a', 'i', 'n', 's', '/']
}

pub open spec fn chain_ext() -> Seq<char> {
    seq!['.', 'c', 'h', 'a', 'i', 'n']
}

pub open spec fn bak_ext() -> Seq<char> {
    seq!['.', 'b', 'a', 'k']
}

pub open spec fn meta_name() -> Seq<char> {
    seq!['c', 'h', 'a', 'i', 'n', '.', 'm', 'e', 't', 'a']
}

/// The relative path of the record file an identifier denotes. A local id
/// of the shape `chain_id/step` lies inside that chain's directory.
pub open spec fn prompt_path_spec(id: Seq<char>) -> Seq<char> {
    let p = parse_id_spec(id);
    ws_prefix() + p.0 + seq!['/'] + p.1 + prompt_ext()
}

/// The relative path of an encrypted chain definition file.
pub open spec fn chain_file_path_spec(id: Seq<char>) -> Seq<char> {
    let p = parse_id_spec(id);
    ws_prefix() + p.0 + seq!['/'] + chains_seg() + p.1 + chain_ext()
}

/// The relative path of a chain's metadata record in the default workspace.
pub open spec fn chain_meta_path_spec(chain_id: Seq<char>) -> Seq<char> {
    ws_prefix() + default_ws() + seq!['/'] + chain_id + seq!['/'] + meta_name()
}

/// The relative path of a numbered step record in a chain of the default
/// workspace.
pub open spec fn chain_step_path_spec(chain_id: Seq<char>, step: Seq<char>) -> Seq<char> {
    ws_prefix() + default_ws() + seq!['/'] + chain_id + seq!['/'] + step + prompt_ext()
}

/// The relative path of a timestamped backup of a record.
pub open spec fn backup_path_spec(ws: Seq<char>, local: Seq<char>, ts: Seq<char>) -> Seq<char> {
    ws_prefix() + ws + seq!['/'] + local + seq!['.'] + ts + bak_ext()
}

fn push_ws_prefix(out: &mut Vec<char>)
    ensures
        final(out)@ == old(out)@ + ws_prefix(),
{
    out.push('w');
    out.push('o');
    out.push('r');
    out.push('k');
    out.push('s');
    out.push('p');
    out.push('a');
    out.push('c');
    out.push('e');
    out.push('s');
    out.push('/');
    proof {
        assert(out@ =~= old(out)@ + ws_prefix());
    }
}

fn push_prompt_ext(out: &mut Vec<char>)
    ensures
        final(out)@ == old(out)@ + prompt_ext(),
{
    out.push('.');
    out.push('p');
    out.push('r');
    out.push('o');
    out.push('m');
    out.push('p');
    out.push('t');
    proof {
        assert(out@ =~= old(out)@ + prompt_ext());
    }
}

fn push_string_chars(out: &mut Vec<char>, s: &String)
    ensures
        final(out)@ == old(out)@ + s@,
{
    let mut cs = str_to_chars(s.as_str());
    out.append(&mut cs);
}

/// Builds the record file path for an identifier.
pub fn prompt_path(full_id: &str) -> (r: String)
    ensures
        r@ == prompt_path_spec(full_id@),
{
    let (ws, local) = parse_id(full_id);
    let mut out: Vec<char> = Vec::new();
    push_ws_prefix(&mut out);
    push_string_chars(&mut out, &ws);
    out.push('/');
    push_string_chars(&mut out, &local);
    push_prompt_ext(&mut out);
    proof {
        assert(out@ =~= prompt_path_spec(full_id@));
    }
    chars_to_string(&out)
}

/// Builds the encrypted chain definition path for an identifier.
pub fn chain_file_path(full_id: &str) -> (r: String)
    ensures
        r@ == chain_file_path_spec(full_id@),
{
    let (ws, local) = parse_id(full_id);
    let mut out: Vec<char> = Vec::new();
    push_ws_prefix(&mut out);
    push_string_chars(&mut out, &ws);
    out.push('/');
    out.push('c');
    out.push('h');
    out.push('a');
    out.push('i');
    out.push('n');
    out.push('s');
    out.push('/');
    push_string_chars(&mut out, &local);
    out.push('.');
    out.push('c');
    out.push('h');
    out.push('a');
    out.push('i');
    out.push('n');
    proof {
        assert(out@ =~= chain_file_path_spec(full_id@));
    }
    chars_to_string(&out)
}

/// Builds the metadata record path of a chain in the default workspace.
pub fn chain_meta_path(chain_id: &String) -> (r: String)
    ensures
        r@ == chain_meta_path_spec(chain_id@),
{
    let mut out: Vec<char> = Vec::new();
    push_ws_prefix(&mut out);
    out.push('d');
    out.push('e');
    out.push('f');
    out.push('a');
    out.push('u');
    out.push('l');
    out.push('t');
    out.push('/');
    push_string_chars(&mut out, chain_id);
    out.push('/');
    out.push('c');
    out.push('h');
    out.push('a');
    out.push('i');
    out.push('n');
    out.push('.');
    out.push('m');
    out.push('e');
    out.push('t');
    out.push('a');
    proof {
        assert(out@ =~= chain_meta_path_spec(chain_id@));
    }
    chars_to_string(&out)
}

/// Builds the path of a numbered step record in a chain of the default
/// workspace.
pub fn chain_step_path(chain_id: &String, step: &String) -> (r: String)
    ensures
        r@ == chain_step_path_spec(chain_id@, step@),
{
    let mut out: Vec<char> = Vec::new();
    push_ws_prefix(&mut out);
    out.push('d');
    out.push('e');
    out.push('f');
    out.push('a');
    out.push('u');
    out.push('l');
    out.push('t');
    out.push('/');
    push_string_chars(&mut out, chain_id);
    out.push('/');
    push_string_chars(&mut out, step);
    push_prompt_ext(&mut out);
    proof {
        assert(out@ =~= chain_step_path_spec(chain_id@, step@));
    }
    chars_to_string(&out)
}

/// Builds the backup path of a record for a timestamp.
pub fn backup_path(ws: &String, local: &String, ts: &String) -> (r: String)
    ensures
        r@ == backup_path_spec(ws@, local@, ts@),
{
    let mut out: Vec<char> = Vec::new();
    push_ws_prefix(&mut out);
    push_string_chars(&mut out, ws);
    out.push('/');
    push_string_chars(&mut out, local);
    out.push('.');
    push_string_chars(&mut out, ts);
    out.push('.');
    out.push('b');
    out.push('a');
    out.push('k');
    proof {
        assert(out@ =~= backup_path_spec(ws@, local@, ts@));
    }
    chars_to_string(&out)
}

/// A lowercase ASCII letter or digit.
pub open spec fn is_lower_alnum(c: char) -> bool {
    (97 <= c as int && c as int <= 122) || (48 <= c as int && c as int <= 57)
}

/// Whether a string is a well-formed generated id: eight lowercase
/// alphanumeric characters.
pub open spec fn wf_generated_id(s: Seq<char>) -> bool {
    s.len() == 8 && forall|i: int| 0 <= i < 8 ==> is_lower_alnum(s[i])
}

fn id_char(n: u8) -> (c: char)
    requires
        n < 36,
    ensures
        is_lower_alnum(c),
{
    if n == 0 {
        'a'
    } else if n == 1 {
        'b'
    } else if n == 2 {
        'c'
    } else if n == 3 {
        'd'
    } else if n == 4 {
        'e'
    } else if n == 5 {
        'f'
    } else if n == 6 {
        'g'
    } else if n == 7 {
        'h'
    } else if n == 8 {
        'i'
    } else if n == 9 {
        'j'
    } else if n == 10 {
        'k'
    } else if n == 11 {
        'l'
    } else if n == 12 {
        'm'
    } else if n == 13 {
        'n'
    } else if n == 14 {
        'o'
    } else if n == 15 {
        'p'
    } else if n == 16 {
        'q'
    } else if n == 17 {
        'r'
    } else if n == 18 {
        's'
    } else if n == 19 {
        't'
    } else if n == 20 {
        'u'
    } else if n == 21 {
        'v'
    } else if n == 22 {
        'w'
    } else if n == 23 {
        'x'
    } else if n == 24 {
        'y'
    } else if n == 25 {
        'z'
    } else if n == 26 {
        '0'
    } else if n == 27 {
        '1'
    } else if n == 28 {
        '2'
    } else if n == 29 {
        '3'
    } else if n == 30 {
        '4'
    } else if n == 31 {
        '5'
    } else if n == 32 {
        '6'
    } else if n == 33 {
        '7'
    } else if n == 34 {
        '8'
    } else {
        '9'
    }
}

/// Draws a random candidate id: eight lowercase alphanumeric characters.
pub fn fresh_id_candidate() -> (r: String)
    ensures
        wf_generated_id(r@),
{
    let bytes = random_bytes(8);
    let mut out: Vec<char> = Vec::new();
    let mut i: usize = 0;
    while i < 8
        invariant
            0 <= i <= 8,
            bytes@.len() == 8,
            out@.len() == i,
            forall|j: int| 0 <= j < i ==> is_lower_alnum(out@[j]),
        decreases 8 - i,
    {
        out.push(id_char(bytes[i] % 36));
        i += 1;
    }
    chars_to_string(&out)
}

} // verus!
