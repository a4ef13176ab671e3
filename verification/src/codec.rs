//! The record wire format: a prompt record as one canonical JSON object, with
//! a strict parser and a proved round trip.
//!
//! Shape: `{"id":S,"title":S,"content":S,"tags":[S,...]}` with an optional
//! `,"schema":{...}` member before the closing brace; the schema object holds
//! its optional `"inputs"` and `"output"` members, each a JSON string.

use crate::jsonstr::{char_of_low, esc, esc_char, hex_digit, hex_val, is_control, json_str, take_body, take_jstr};
use crate::record::{ChainData, PromptData, PromptSchema, RecordV, SchemaV};
use vstd::prelude::*;

verus! {

pub open spec fn tok_id() -> Seq<char> {
    seq!['{', '"', 'i', 'd', '"', ':']
}

pub open spec fn tok_title() -> Seq<char> {
    seq![',', '"', 't', 'i', 't', 'l', 'e', '"', ':']
}

pub open spec fn tok_content() -> Seq<char> {
    seq![',', '"', 'c', 'o', 'n', 't', 'e', 'n', 't', '"', ':']
}

pub open spec fn tok_tags() -> Seq<char> {
    seq![',', '"', 't', 'a', 'g', 's', '"', ':', '[']
}

pub open spec fn tok_schema() -> Seq<char> {
    seq![',', '"', 's', 'c', 'h', 'e', 'm', 'a', '"', ':', '{']
}

pub open spec fn tok_inputs() -> Seq<char> {
    seq!['"', 'i', 'n', 'p', 'u', 't', 's', '"', ':']
}

pub open spec fn tok_output0() -> Seq<char> {
    seq!['"', 'o', 'u', 't', 'p', 'u', 't', '"', ':']
}

pub open spec fn tok_output1() -> Seq<char> {
    seq![',', '"', 'o', 'u', 't', 'p', 'u', 't', '"', ':']
}

/// Strips an expected token from the front.
pub open spec fn strip(s: Seq<char>, tok: Seq<char>) -> Option<Seq<char>> {
    if tok.len() <= s.len() && s.subrange(0, tok.len() as int) == tok {
        Some(s.subrange(tok.len() as int, s.len() as int))
    } else {
        None
    }
}

pub proof fn lemma_strip_prefix(tok: Seq<char>, rest: Seq<char>)
    ensures
        strip(tok + rest, tok) == Some(rest),
{
    assert((tok + rest).subrange(0, tok.len() as int) =~= tok);
    assert((tok + rest).subrange(tok.len() as int, (tok + rest).len() as int) =~= rest);
}

/// The encoding of the tag list from position `k` on, up to and including the
/// closing bracket.
pub open spec fn tags_inner_from(tags: Seq<Seq<char>>, k: int) -> Seq<char>
    decreases tags.len() - k,
{
    if k < 0 || k >= tags.len() {
        seq![']']
    } else if k == tags.len() - 1 {
        json_str(tags[k]) + seq![']']
    } else {
        json_str(tags[k]) + seq![','] + tags_inner_from(tags, k + 1)
    }
}

pub open spec fn tags_inner(tags: Seq<Seq<char>>) -> Seq<char> {
    tags_inner_from(tags, 0)
}

/// Parses one or more comma-separated JSON strings up to the closing bracket.
pub open spec fn take_tags_more(s: Seq<char>) -> Option<(Seq<Seq<char>>, Seq<char>)>
    decreases s.len(),
{
    match take_jstr(s) {
        Some(p) => {
            if p.1.len() < s.len() && p.1.len() >= 1 {
                if p.1[0] == ']' {
                    Some((seq![p.0], p.1.drop_first()))
                } else if p.1[0] == ',' {
                    match take_tags_more(p.1.drop_first()) {
                        Some(q) => Some((seq![p.0] + q.0, q.1)),
                        None => None,
                    }
                } else {
                    None
                }
            } else {
                None
            }
        },
        None => None,
    }
}

/// Parses a possibly empty tag list up to the closing bracket.
pub open spec fn take_tags(s: Seq<char>) -> Option<(Seq<Seq<char>>, Seq<char>)> {
    if s.len() >= 1 && s[0] == ']' {
        Some((Seq::empty(), s.drop_first()))
    } else {
        take_tags_more(s)
    }
}

pub proof fn lemma_take_tags_more_round(tags: Seq<Seq<char>>, k: int, rest: Seq<char>)
    requires
        0 <= k < tags.len(),
    ensures
        take_tags_more(tags_inner_from(tags, k) + rest) == Some(
            (tags.subrange(k, tags.len() as int), rest),
        ),
    decreases tags.len() - k,
{
    let s = tags_inner_from(tags, k) + rest;
    if k == tags.len() - 1 {
        let r = seq![']'] + rest;
        assert(s =~= json_str(tags[k]) + r);
        crate::jsonstr::lemma_take_jstr_round(tags[k], r);
        assert(r[0] == ']');
        assert(r.drop_first() =~= rest);
        assert(seq![tags[k]] =~= tags.subrange(k, tags.len() as int));
    } else {
        let r = seq![','] + (tags_inner_from(tags, k + 1) + rest);
        assert(s =~= json_str(tags[k]) + r);
        crate::jsonstr::lemma_take_jstr_round(tags[k], r);
        assert(r[0] == ',');
        assert(r.drop_first() =~= tags_inner_from(tags, k + 1) + rest);
        lemma_take_tags_more_round(tags, k + 1, rest);
        assert(seq![tags[k]] + tags.subrange(k + 1, tags.len() as int) =~= tags.subrange(
            k,
            tags.len() as int,
        ));
    }
}

pub proof fn lemma_take_tags_round(tags: Seq<Seq<char>>, rest: Seq<char>)
    ensures
        take_tags(tags_inner(tags) + rest) == Some((tags, rest)),
{
    let s = tags_inner(tags) + rest;
    if tags.len() == 0 {
        assert(s =~= seq![']'] + rest);
        assert(s[0] == ']');
        assert(s.drop_first() =~= rest);
        assert(take_tags(s) == Some((Seq::<Seq<char>>::empty(), rest)));
        assert(tags =~= Seq::<Seq<char>>::empty());
    } else {
        assert(s[0] == '"');
        lemma_take_tags_more_round(tags, 0, rest);
        assert(tags.subrange(0, tags.len() as int) =~= tags);
    }
}

/// The members of the schema object, without its braces.
pub open spec fn schema_inner(sc: SchemaV) -> Seq<char> {
    match (sc.inputs, sc.output) {
        (None, None) => Seq::<char>::empty(),
        (Some(i), None) => tok_inputs() + json_str(i),
        (None, Some(o)) => tok_output0() + json_str(o),
        (Some(i), Some(o)) => tok_inputs() + json_str(i) + tok_output1() + json_str(o),
    }
}

/// The canonical JSON text of a record.
pub open spec fn record_json(v: RecordV) -> Seq<char> {
    tok_id() + json_str(v.id) + tok_title() + json_str(v.title) + tok_content() + json_str(
        v.content,
    ) + tok_tags() + tags_inner(v.tags) + (match v.schema {
        None => Seq::<char>::empty(),
        Some(sc) => tok_schema() + schema_inner(sc) + seq!['}'],
    }) + seq!['}']
}

/// Parses the schema object's members and its closing brace.
pub open spec fn parse_schema_rest(s: Seq<char>) -> Option<(SchemaV, Seq<char>)> {
    if s.len() >= 1 && s[0] == '}' {
        Some((SchemaV { inputs: None, output: None }, s.drop_first()))
    } else {
        match strip(s, tok_inputs()) {
            Some(s1) => match take_jstr(s1) {
                Some(p) => if p.1.len() >= 1 && p.1[0] == '}' {
                    Some((SchemaV { inputs: Some(p.0), output: None }, p.1.drop_first()))
                } else {
                    match strip(p.1, tok_output1()) {
                        Some(s2) => match take_jstr(s2) {
                            Some(q) => if q.1.len() >= 1 && q.1[0] == '}' {
                                Some(
                                    (
                                        SchemaV { inputs: Some(p.0), output: Some(q.0) },
                                        q.1.drop_first(),
                                    ),
                                )
                            } else {
                                None
                            },
                            None => None,
                        },
                        None => None,
                    }
                },
                None => None,
            },
            None => match strip(s, tok_output0()) {
                Some(s1) => match take_jstr(s1) {
                    Some(p) => if p.1.len() >= 1 && p.1[0] == '}' {
                        Some((SchemaV { inputs: None, output: Some(p.0) }, p.1.drop_first()))
                    } else {
                        None
                    },
                    None => None,
                },
                None => None,
            },
        }
    }
}

/// Parses one record object, leaving whatever follows it.
pub open spec fn record_parse_rest(s: Seq<char>) -> Option<(RecordV, Seq<char>)> {
    match strip(s, tok_id()) {
        Some(s1) => match take_jstr(s1) {
            Some(pid) => match strip(pid.1, tok_title()) {
                Some(s2) => match take_jstr(s2) {
                    Some(pt) => match strip(pt.1, tok_content()) {
                        Some(s3) => match take_jstr(s3) {
                            Some(pc) => match strip(pc.1, tok_tags()) {
                                Some(s4) => match take_tags(s4) {
                                    Some(pg) => if pg.1.len() >= 1 && pg.1[0] == '}' {
                                        Some(
                                            (
                                                RecordV {
                                                    id: pid.0,
                                                    title: pt.0,
                                                    content: pc.0,
                                                    tags: pg.0,
                                                    schema: None,
                                                },
                                                pg.1.drop_first(),
                                            ),
                                        )
                                    } else {
                                        match strip(pg.1, tok_schema()) {
                                            Some(s5) => match parse_schema_rest(s5) {
                                                Some(ps) => if ps.1.len() >= 1 && ps.1[0]
                                                    == '}' {
                                                    Some(
                                                        (
                                                            RecordV {
                                                                id: pid.0,
                                                                title: pt.0,
                                                                content: pc.0,
                                                                tags: pg.0,
                                                                schema: Some(ps.0),
                                                            },
                                                            ps.1.drop_first(),
                                                        ),
                                                    )
                                                } else {
                                                    None
                                                },
                                                None => None,
                                            },
                                            None => None,
                                        }
                                    },
                                    None => None,
                                },
                                None => None,
                            },
                            None => None,
                        },
                        None => None,
                    },
                    None => None,
                },
                None => None,
            },
            None => None,
        },
        None => None,
    }
}

/// Parses a whole record: the object with nothing after it.
pub open spec fn record_parse(s: Seq<char>) -> Option<RecordV> {
    match record_parse_rest(s) {
        Some(p) => if p.1.len() == 0 {
            Some(p.0)
        } else {
            None
        },
        None => None,
    }
}

#[verifier::rlimit(100)]
#[verifier::spinoff_prover]
pub proof fn lemma_schema_round(sc: SchemaV, rest: Seq<char>)
    ensures
        parse_schema_rest(schema_inner(sc) + seq!['}'] + rest) == Some((sc, rest)),
{
    let s = schema_inner(sc) + seq!['}'] + rest;
    match (sc.inputs, sc.output) {
        (None, None) => {
            assert(s =~= seq!['}'] + rest);
            assert(s[0] == '}');
            assert(s.drop_first() =~= rest);
        },
        (Some(i), None) => {
            let r1 = json_str(i) + (seq!['}'] + rest);
            assert(s =~= tok_inputs() + r1);
            assert(s[0] == '"');
            lemma_strip_prefix(tok_inputs(), r1);
            crate::jsonstr::lemma_take_jstr_round(i, seq!['}'] + rest);
            assert((seq!['}'] + rest)[0] == '}');
            assert((seq!['}'] + rest).drop_first() =~= rest);
        },
        (None, Some(o)) => {
            let r1 = json_str(o) + (seq!['}'] + rest);
            assert(s =~= tok_output0() + r1);
            assert(s[0] == '"');
            assert(s[1] == 'o');
            assert(strip(s, tok_inputs()) is None) by {
                if strip(s, tok_inputs()) is Some {
                    assert(s.subrange(0, tok_inputs().len() as int)[1] == tok_inputs()[1]);
                }
            }
            lemma_strip_prefix(tok_output0(), r1);
            crate::jsonstr::lemma_take_jstr_round(o, seq!['}'] + rest);
            assert((seq!['}'] + rest)[0] == '}');
            assert((seq!['}'] + rest).drop_first() =~= rest);
        },
        (Some(i), Some(o)) => {
            let r2 = json_str(o) + (seq!['}'] + rest);
            let r1 = json_str(i) + (tok_output1() + r2);
            assert(s =~= tok_inputs() + r1);
            assert(s[0] == '"');
            lemma_strip_prefix(tok_inputs(), r1);
            crate::jsonstr::lemma_take_jstr_round(i, tok_output1() + r2);
            let m = tok_output1() + r2;
            assert(m[0] == ',');
            lemma_strip_prefix(tok_output1(), r2);
            crate::jsonstr::lemma_take_jstr_round(o, seq!['}'] + rest);
            assert((seq!['}'] + rest)[0] == '}');
            assert((seq!['}'] + rest).drop_first() =~= rest);
        },
    }
}

/// Round trip: parsing the canonical text of a record, with anything after
/// it, yields exactly that record and rest.
#[verifier::rlimit(100)]
pub proof fn lemma_record_round_rest(v: RecordV, rest: Seq<char>)
    ensures
        record_parse_rest(record_json(v) + rest) == Some((v, rest)),
{
    let tail = match v.schema {
        None => Seq::<char>::empty(),
        Some(sc) => tok_schema() + schema_inner(sc) + seq!['}'],
    };
    let r4 = tail + (seq!['}'] + rest);
    let r3 = tags_inner(v.tags) + r4;
    let r2 = json_str(v.content) + (tok_tags() + r3);
    let r1 = json_str(v.title) + (tok_content() + r2);
    let r0 = json_str(v.id) + (tok_title() + r1);
    let s = record_json(v) + rest;
    assert(s =~= tok_id() + r0);
    lemma_strip_prefix(tok_id(), r0);
    crate::jsonstr::lemma_take_jstr_round(v.id, tok_title() + r1);
    lemma_strip_prefix(tok_title(), r1);
    crate::jsonstr::lemma_take_jstr_round(v.title, tok_content() + r2);
    lemma_strip_prefix(tok_content(), r2);
    crate::jsonstr::lemma_take_jstr_round(v.content, tok_tags() + r3);
    lemma_strip_prefix(tok_tags(), r3);
    lemma_take_tags_round(v.tags, r4);
    match v.schema {
        None => {
            assert(r4 =~= seq!['}'] + rest);
            assert(r4[0] == '}');
            assert(r4.drop_first() =~= rest);
        },
        Some(sc) => {
            let q = (schema_inner(sc) + seq!['}']) + (seq!['}'] + rest);
            assert(r4 =~= tok_schema() + q);
            assert(r4[0] == ',');
            lemma_strip_prefix(tok_schema(), q);
            assert(q =~= schema_inner(sc) + seq!['}'] + (seq!['}'] + rest));
            lemma_schema_round(sc, seq!['}'] + rest);
            assert((seq!['}'] + rest)[0] == '}');
            assert((seq!['}'] + rest).drop_first() =~= rest);
        },
    }
}

/// Round trip for a whole record text.
pub proof fn lemma_record_round(v: RecordV)
    ensures
        record_parse(record_json(v)) == Some(v),
{
    lemma_record_round_rest(v, Seq::empty());
    assert(record_json(v) + Seq::<char>::empty() =~= record_json(v));
}

// ---------------------------------------------------------------------------
// Executable encoder
// ---------------------------------------------------------------------------

fn push_tok_id(out: &mut Vec<char>)
    ensures
        final(out)@ == old(out)@ + tok_id(),
{
    out.push('{');
    out.push('\"');
    out.push('i');
    out.push('d');
    out.push('\"');
    out.push(':');
    proof {
        assert(out@ =~= old(out)@ + tok_id());
    }
}

fn push_tok_title(out: &mut Vec<char>)
    ensures
        final(out)@ == old(out)@ + tok_title(),
{
    out.push(',');
    out.push('\"');
    out.push('t');
    out.push('i');
    out.push('t');
    out.push('l');
    out.push('e');
    out.push('\"');
    out.push(':');
    proof {
        assert(out@ =~= old(out)@ + tok_title());
    }
}

fn push_tok_content(out: &mut Vec<char>)
    ensures
        final(out)@ == old(out)@ + tok_content(),
{
    out.push(',');
    out.push('\"');
    out.push('c');
    out.push('o');
    out.push('n');
    out.push('t');
    out.push('e');
    out.push('n');
    out.push('t');
    out.push('\"');
    out.push(':');
    proof {
        assert(out@ =~= old(out)@ + tok_content());
    }
}

fn push_tok_tags(out: &mut Vec<char>)
    ensures
        final(out)@ == old(out)@ + tok_tags(),
{
    out.push(',');
    out.push('\"');
    out.push('t');
    out.push('a');
    out.push('g');
    out.push('s');
    out.push('\"');
    out.push(':');
    out.push('[');
    proof {
        assert(out@ =~= old(out)@ + tok_tags());
    }
}

fn push_tok_schema(out: &mut Vec<char>)
    ensures
        final(out)@ == old(out)@ + tok_schema(),
{
    out.push(',');
    out.push('\"');
    out.push('s');
    out.push('c');
    out.push('h');
    out.push('e');
    out.push('m');
    out.push('a');
    out.push('\"');
    out.push(':');
    out.push('{');
    proof {
        assert(out@ =~= old(out)@ + tok_schema());
    }
}

fn push_tok_inputs(out: &mut Vec<char>)
    ensures
        final(out)@ == old(out)@ + tok_inputs(),
{
    out.push('\"');
    out.push('i');
    out.push('n');
    out.push('p');
    out.push('u');
    out.push('t');
    out.push('s');
    out.push('\"');
    out.push(':');
    proof {
        assert(out@ =~= old(out)@ + tok_inputs());
    }
}

fn push_tok_output0(out: &mut Vec<char>)
    ensures
        final(out)@ == old(out)@ + tok_output0(),
{
    out.push('\"');
    out.push('o');
    out.push('u');
    out.push('t');
    out.push('p');
    out.push('u');
    out.push('t');
    out.push('\"');
    out.push(':');
    proof {
        assert(out@ =~= old(out)@ + tok_output0());
    }
}

fn push_tok_output1(out: &mut Vec<char>)
    ensures
        final(out)@ == old(out)@ + tok_output1(),
{
    out.push(',');
    out.push('\"');
    out.push('o');
    out.push('u');
    out.push('t');
    out.push('p');
    out.push('u');
    out.push('t');
    out.push('\"');
    out.push(':');
    proof {
        assert(out@ =~= old(out)@ + tok_output1());
    }
}


fn push_hex(out: &mut Vec<char>, n: u32)
    requires
        n < 16,
    ensures
        final(out)@ == old(out)@ + seq![hex_digit(n as int)],
{
    let c: char = if n == 0 {
        '0'
    } else if n == 1 {
        '1'
    } else if n == 2 {
        '2'
    } else if n == 3 {
        '3'
    } else if n == 4 {
        '4'
    } else if n == 5 {
        '5'
    } else if n == 6 {
        '6'
    } else if n == 7 {
        '7'
    } else if n == 8 {
        '8'
    } else if n == 9 {
        '9'
    } else if n == 10 {
        'a'
    } else if n == 11 {
        'b'
    } else if n == 12 {
        'c'
    } else if n == 13 {
        'd'
    } else if n == 14 {
        'e'
    } else {
        'f'
    };
    out.push(c);
    proof {
        assert(out@ =~= old(out)@ + seq![hex_digit(n as int)]);
    }
}

fn push_esc_char(out: &mut Vec<char>, c: char)
    ensures
        final(out)@ == old(out)@ + esc_char(c),
{
    if c == '"' {
        out.push('\\');
        out.push('"');
        proof {
            assert(out@ =~= old(out)@ + esc_char(c));
        }
    } else if c == '\\' {
        out.push('\\');
        out.push('\\');
        proof {
            assert(out@ =~= old(out)@ + esc_char(c));
        }
    } else {
        let u = c as u32;
        proof {
            vstd::utf8::char_u32_cast(c, u);
        }
        if u < 32 {
            out.push('\\');
            out.push('u');
            out.push('0');
            out.push('0');
            push_hex(out, u / 16);
            push_hex(out, u % 16);
            proof {
                assert(u / 16 == c as int / 16 && u % 16 == c as int % 16);
                assert(out@ =~= old(out)@ + esc_char(c));
            }
        } else {
            out.push(c);
            proof {
                assert(!is_control(c));
                assert(out@ =~= old(out)@ + esc_char(c));
            }
        }
    }
}

fn push_jstr(out: &mut Vec<char>, s: &String)
    ensures
        final(out)@ == old(out)@ + json_str(s@),
{
    out.push('"');
    let cs = crate::trusted::str_to_chars(s.as_str());
    let mut i: usize = 0;
    while i < cs.len()
        invariant
            0 <= i <= cs@.len(),
            cs@ == s@,
            out@ == old(out)@ + seq!['"'] + esc(cs@.subrange(0, i as int)),
        decreases cs@.len() - i,
    {
        let ghost pre = cs@.subrange(0, i as int);
        push_esc_char(out, cs[i]);
        proof {
            crate::jsonstr::lemma_esc_snoc(pre, cs@[i as int]);
            assert(pre.push(cs@[i as int]) =~= cs@.subrange(0, i + 1));
        }
        i += 1;
    }
    proof {
        assert(cs@.subrange(0, cs@.len() as int) =~= cs@);
    }
    out.push('"');
    proof {
        assert(out@ =~= old(out)@ + json_str(s@));
    }
}

/// Encodes a record as its canonical JSON text.
#[verifier::rlimit(50)]
pub fn record_encode(pd: &PromptData) -> (r: Vec<char>)
    ensures
        r@ == record_json(pd@),
{
    let mut out: Vec<char> = Vec::new();
    push_tok_id(&mut out);
    push_jstr(&mut out, &pd.id);
    push_tok_title(&mut out);
    push_jstr(&mut out, &pd.title);
    push_tok_content(&mut out);
    push_jstr(&mut out, &pd.content);
    push_tok_tags(&mut out);
    let ghost tagsv = pd.tags.deep_view();
    let ghost base = out@;
    let n = pd.tags.len();
    let mut k: usize = 0;
    while k < n
        invariant
            0 <= k <= n,
            n == pd.tags@.len(),
            tagsv == pd.tags.deep_view(),
            base + tags_inner_from(tagsv, 0) == out@ + tags_inner_from(tagsv, k as int),
        decreases n - k,
    {
        let ghost before = out@;
        push_jstr(&mut out, &pd.tags[k]);
        if k + 1 < n {
            out.push(',');
            proof {
                assert(tagsv[k as int] == pd.tags@[k as int]@);
                assert(out@ =~= before + json_str(tagsv[k as int]) + seq![',']);
                assert(before + (json_str(tagsv[k as int]) + seq![','] + tags_inner_from(
                    tagsv,
                    k + 1,
                )) =~= out@ + tags_inner_from(tagsv, k + 1));
            }
        } else {
            proof {
                assert(tagsv[k as int] == pd.tags@[k as int]@);
                assert(out@ =~= before + json_str(tagsv[k as int]));
                assert(before + (json_str(tagsv[k as int]) + tags_inner_from(tagsv, k + 1))
                    =~= out@ + tags_inner_from(tagsv, k + 1));
            }
        }
        k += 1;
    }
    out.push(']');
    proof {
        assert(tags_inner_from(tagsv, n as int) =~= seq![']']);
        assert(out@ =~= base + tags_inner(tagsv));
    }
    match &pd.schema {
        None => {},
        Some(sc) => {
            push_tok_schema(&mut out);
            match (&sc.inputs, &sc.output) {
                (None, None) => {},
                (Some(i), None) => {
                    push_tok_inputs(&mut out);
                    push_jstr(&mut out, i);
                },
                (None, Some(o)) => {
                    push_tok_output0(&mut out);
                    push_jstr(&mut out, o);
                },
                (Some(i), Some(o)) => {
                    push_tok_inputs(&mut out);
                    push_jstr(&mut out, i);
                    push_tok_output1(&mut out);
                    push_jstr(&mut out, o);
                },
            }
            out.push('}');
        },
    }
    out.push('}');
    proof {
        assert(out@ =~= record_json(pd@));
    }
    out
}

// ---------------------------------------------------------------------------
// Executable decoder
// ---------------------------------------------------------------------------

fn hex_val_exec(c: char) -> (r: Option<u32>)
    ensures
        r matches Some(v) ==> hex_val(c) == Some(v as int) && v < 16,
        r is None ==> hex_val(c) is None,
{
    let u = c as u32;
    proof {
        vstd::utf8::char_u32_cast(c, u);
    }
    if 48 <= u && u <= 57 {
        Some(u - 48)
    } else if 97 <= u && u <= 102 {
        Some(u - 87)
    } else {
        None
    }
}

fn char_of_low_exec(n: u32) -> (r: char)
    requires
        n < 32,
    ensures
        r == char_of_low(n as int),
{
    if n == 0 {
        '\u{0}'
    } else if n == 1 {
        '\u{1}'
    } else if n == 2 {
        '\u{2}'
    } else if n == 3 {
        '\u{3}'
    } else if n == 4 {
        '\u{4}'
    } else if n == 5 {
        '\u{5}'
    } else if n == 6 {
        '\u{6}'
    } else if n == 7 {
        '\u{7}'
    } else if n == 8 {
        '\u{8}'
    } else if n == 9 {
        '\u{9}'
    } else if n == 10 {
        '\u{a}'
    } else if n == 11 {
        '\u{b}'
    } else if n == 12 {
        '\u{c}'
    } else if n == 13 {
        '\u{d}'
    } else if n == 14 {
        '\u{e}'
    } else if n == 15 {
        '\u{f}'
    } else if n == 16 {
        '\u{10}'
    } else if n == 17 {
        '\u{11}'
    } else if n == 18 {
        '\u{12}'
    } else if n == 19 {
        '\u{13}'
    } else if n == 20 {
        '\u{14}'
    } else if n == 21 {
        '\u{15}'
    } else if n == 22 {
        '\u{16}'
    } else if n == 23 {
        '\u{17}'
    } else if n == 24 {
        '\u{18}'
    } else if n == 25 {
        '\u{19}'
    } else if n == 26 {
        '\u{1a}'
    } else if n == 27 {
        '\u{1b}'
    } else if n == 28 {
        '\u{1c}'
    } else if n == 29 {
        '\u{1d}'
    } else if n == 30 {
        '\u{1e}'
    } else {
        '\u{1f}'
    }
}

/// The suffix of the text from position `i`.
pub open spec fn suffix(t: Seq<char>, i: int) -> Seq<char> {
    t.subrange(i, t.len() as int)
}

fn p_body(t: &Vec<char>, i: usize) -> (r: Option<(Vec<char>, usize)>)
    requires
        i <= t@.len(),
    ensures
        r matches Some(p) ==> i < p.1 <= t@.len() && take_body(suffix(t@, i as int)) == Some(
            (p.0@, suffix(t@, p.1 as int)),
        ),
        r is None ==> take_body(suffix(t@, i as int)) is None,
    decreases t@.len() - i,
{
    let ghost s = suffix(t@, i as int);
    let n = t.len();
    if i >= n {
        return None;
    }
    let c = t[i];
    proof {
        assert(s[0] == c);
    }
    if c == '"' {
        proof {
            assert(s.drop_first() =~= suffix(t@, i + 1));
        }
        return Some((Vec::new(), i + 1));
    }
    if c == '\\' {
        if n - i >= 2 && (t[i + 1] == '"' || t[i + 1] == '\\') {
            proof {
                assert(s[1] == t@[i + 1]);
                assert(s.subrange(2, s.len() as int) =~= suffix(t@, i + 2));
            }
            match p_body(t, i + 2) {
                Some((v, j)) => {
                    let ghost v0 = v@;
                    let mut v = v;
                    v.insert(0, t[i + 1]);
                    proof {
                        assert(v@ =~= seq![s[1]] + v0);
                    }
                    Some((v, j))
                },
                None => None,
            }
        } else if n - i >= 6 && t[i + 1] == 'u' && t[i + 2] == '0' && t[i + 3] == '0' {
            proof {
                assert(s[1] == t@[i + 1] && s[2] == t@[i + 2] && s[3] == t@[i + 3]);
                assert(s[4] == t@[i + 4] && s[5] == t@[i + 5]);
            }
            let h1 = hex_val_exec(t[i + 4]);
            let h2 = hex_val_exec(t[i + 5]);
            match (h1, h2) {
                (Some(a), Some(b)) => {
                    if 16 * a + b < 32 {
                        let dc = char_of_low_exec(16 * a + b);
                        proof {
                            assert(s.subrange(6, s.len() as int) =~= suffix(t@, i + 6));
                        }
                        match p_body(t, i + 6) {
                            Some((v, j)) => {
                                let ghost v0 = v@;
                                let mut v = v;
                                v.insert(0, dc);
                                proof {
                                    assert(v@ =~= seq![dc] + v0);
                                }
                                Some((v, j))
                            },
                            None => None,
                        }
                    } else {
                        None
                    }
                },
                _ => None,
            }
        } else {
            None
        }
    } else {
        let u = c as u32;
        proof {
            vstd::utf8::char_u32_cast(c, u);
        }
        if u < 32 {
            proof {
                assert(is_control(s[0]));
            }
            None
        } else {
            proof {
                assert(!is_control(s[0]));
                assert(s.drop_first() =~= suffix(t@, i + 1));
            }
            match p_body(t, i + 1) {
                Some((v, j)) => {
                    let ghost v0 = v@;
                    let mut v = v;
                    v.insert(0, c);
                    proof {
                        assert(v@ =~= seq![s[0]] + v0);
                    }
                    Some((v, j))
                },
                None => None,
            }
        }
    }
}

fn p_jstr(t: &Vec<char>, i: usize) -> (r: Option<(Vec<char>, usize)>)
    requires
        i <= t@.len(),
    ensures
        r matches Some(p) ==> i < p.1 <= t@.len() && take_jstr(suffix(t@, i as int)) == Some(
            (p.0@, suffix(t@, p.1 as int)),
        ),
        r is None ==> take_jstr(suffix(t@, i as int)) is None,
{
    let n = t.len();
    if i < n && t[i] == '"' {
        proof {
            assert(suffix(t@, i as int)[0] == '"');
            assert(suffix(t@, i as int).drop_first() =~= suffix(t@, i + 1));
        }
        p_body(t, i + 1)
    } else {
        None
    }
}

fn eat_tok(t: &Vec<char>, i: usize, tok: &Vec<char>) -> (r: Option<usize>)
    requires
        i <= t@.len(),
    ensures
        r matches Some(j) ==> i <= j <= t@.len() && strip(suffix(t@, i as int), tok@) == Some(
            suffix(t@, j as int),
        ) && j - i == tok@.len(),
        r is None ==> strip(suffix(t@, i as int), tok@) is None,
{
    let ghost s = suffix(t@, i as int);
    let n = t.len();
    if tok.len() > n - i {
        return None;
    }
    let mut k: usize = 0;
    while k < tok.len()
        invariant
            0 <= k <= tok@.len(),
            i + tok@.len() <= t@.len(),
            n == t@.len(),
            s == suffix(t@, i as int),
            forall|m: int| 0 <= m < k ==> t@[i + m] == tok@[m],
        decreases tok@.len() - k,
    {
        if t[i + k] != tok[k] {
            proof {
                assert(s.subrange(0, tok@.len() as int)[k as int] == t@[i + k]);
                assert(s.subrange(0, tok@.len() as int) != tok@);
            }
            return None;
        }
        k += 1;
    }
    proof {
        assert(s.subrange(0, tok@.len() as int) =~= tok@);
        assert(s.subrange(tok@.len() as int, s.len() as int) =~= suffix(
            t@,
            i + tok@.len(),
        ));
    }
    Some(i + tok.len())
}

fn p_tags_more(t: &Vec<char>, i: usize) -> (r: Option<(Vec<String>, usize)>)
    requires
        i <= t@.len(),
    ensures
        r matches Some(p) ==> i < p.1 <= t@.len() && take_tags_more(suffix(t@, i as int))
            == Some((p.0.deep_view(), suffix(t@, p.1 as int))),
        r is None ==> take_tags_more(suffix(t@, i as int)) is None,
    decreases t@.len() - i,
{
    let ghost s = suffix(t@, i as int);
    let n = t.len();
    match p_jstr(t, i) {
        Some((v, j)) => {
            proof {
                assert(suffix(t@, j as int).len() < s.len());
            }
            if j < n && t[j] == ']' {
                let mut vs: Vec<String> = Vec::new();
                vs.push(crate::trusted::chars_to_string(&v));
                proof {
                    assert(suffix(t@, j as int)[0] == ']');
                    assert(suffix(t@, j as int).drop_first() =~= suffix(t@, j + 1));
                    assert(vs.deep_view() =~~= seq![v@]);
                }
                Some((vs, j + 1))
            } else if j < n && t[j] == ',' {
                proof {
                    assert(suffix(t@, j as int)[0] == ',');
                    assert(suffix(t@, j as int).drop_first() =~= suffix(t@, j + 1));
                }
                match p_tags_more(t, j + 1) {
                    Some((vs, j2)) => {
                        let ghost vs0 = vs.deep_view();
                        let mut vs = vs;
                        vs.insert(0, crate::trusted::chars_to_string(&v));
                        proof {
                            assert(vs.deep_view() =~~= seq![v@] + vs0);
                        }
                        Some((vs, j2))
                    },
                    None => None,
                }
            } else {
                proof {
                    if suffix(t@, j as int).len() >= 1 {
                        assert(suffix(t@, j as int)[0] == t@[j as int]);
                    }
                }
                None
            }
        },
        None => None,
    }
}

fn p_tags(t: &Vec<char>, i: usize) -> (r: Option<(Vec<String>, usize)>)
    requires
        i <= t@.len(),
    ensures
        r matches Some(p) ==> i < p.1 <= t@.len() && take_tags(suffix(t@, i as int)) == Some(
            (p.0.deep_view(), suffix(t@, p.1 as int)),
        ),
        r is None ==> take_tags(suffix(t@, i as int)) is None,
{
    let n = t.len();
    if i < n && t[i] == ']' {
        let vs: Vec<String> = Vec::new();
        proof {
            assert(suffix(t@, i as int)[0] == ']');
            assert(suffix(t@, i as int).drop_first() =~= suffix(t@, i + 1));
            assert(vs.deep_view() =~~= Seq::<Seq<char>>::empty());
        }
        Some((vs, i + 1))
    } else {
        proof {
            let s = suffix(t@, i as int);
            if s.len() >= 1 {
                assert(s[0] == t@[i as int]);
            }
        }
        p_tags_more(t, i)
    }
}

fn p_schema(t: &Vec<char>, i: usize, toks: &CodecToks) -> (r: Option<(PromptSchema, usize)>)
    requires
        i <= t@.len(),
        toks.wf(),
    ensures
        r matches Some(p) ==> i < p.1 <= t@.len() && parse_schema_rest(suffix(t@, i as int))
            == Some((p.0@, suffix(t@, p.1 as int))),
        r is None ==> parse_schema_rest(suffix(t@, i as int)) is None,
{
    let ghost s = suffix(t@, i as int);
    let n = t.len();
    if i < n && t[i] == '}' {
        proof {
            assert(s[0] == '}');
            assert(s.drop_first() =~= suffix(t@, i + 1));
        }
        return Some((PromptSchema { inputs: None, output: None }, i + 1));
    }
    proof {
        if s.len() >= 1 {
            assert(s[0] == t@[i as int]);
        }
    }
    match eat_tok(t, i, &toks.inputs) {
        Some(j1) => {
            match p_jstr(t, j1) {
                Some((inp, j2)) => {
                    if j2 < n && t[j2] == '}' {
                        proof {
                            assert(suffix(t@, j2 as int)[0] == '}');
                            assert(suffix(t@, j2 as int).drop_first() =~= suffix(t@, j2 + 1));
                        }
                        Some(
                            (
                                PromptSchema {
                                    inputs: Some(crate::trusted::chars_to_string(&inp)),
                                    output: None,
                                },
                                j2 + 1,
                            ),
                        )
                    } else {
                        proof {
                            if suffix(t@, j2 as int).len() >= 1 {
                                assert(suffix(t@, j2 as int)[0] == t@[j2 as int]);
                            }
                        }
                        match eat_tok(t, j2, &toks.output1) {
                            Some(j3) => match p_jstr(t, j3) {
                                Some((outp, j4)) => {
                                    if j4 < n && t[j4] == '}' {
                                        proof {
                                            assert(suffix(t@, j4 as int)[0] == '}');
                                            assert(suffix(t@, j4 as int).drop_first() =~= suffix(
                                                t@,
                                                j4 + 1,
                                            ));
                                        }
                                        Some(
                                            (
                                                PromptSchema {
                                                    inputs: Some(
                                                        crate::trusted::chars_to_string(&inp),
                                                    ),
                                                    output: Some(
                                                        crate::trusted::chars_to_string(&outp),
                                                    ),
                                                },
                                                j4 + 1,
                                            ),
                                        )
                                    } else {
                                        proof {
                                            if suffix(t@, j4 as int).len() >= 1 {
                                                assert(suffix(t@, j4 as int)[0] == t@[
                                                j4 as int]);
                                            }
                                        }
                                        None
                                    }
                                },
                                None => None,
                            },
                            None => None,
                        }
                    }
                },
                None => None,
            }
        },
        None => {
            match eat_tok(t, i, &toks.output0) {
                Some(j1) => match p_jstr(t, j1) {
                    Some((outp, j2)) => {
                        if j2 < n && t[j2] == '}' {
                            proof {
                                assert(suffix(t@, j2 as int)[0] == '}');
                                assert(suffix(t@, j2 as int).drop_first() =~= suffix(
                                    t@,
                                    j2 + 1,
                                ));
                            }
                            Some(
                                (
                                    PromptSchema {
                                        inputs: None,
                                        output: Some(crate::trusted::chars_to_string(&outp)),
                                    },
                                    j2 + 1,
                                ),
                            )
                        } else {
                            proof {
                                if suffix(t@, j2 as int).len() >= 1 {
                                    assert(suffix(t@, j2 as int)[0] == t@[j2 as int]);
                                }
                            }
                            None
                        }
                    },
                    None => None,
                },
                None => None,
            }
        },
    }
}

/// The token texts the decoder matches against, built once per decode.
struct CodecToks {
    id: Vec<char>,
    title: Vec<char>,
    content: Vec<char>,
    tags: Vec<char>,
    schema: Vec<char>,
    inputs: Vec<char>,
    output0: Vec<char>,
    output1: Vec<char>,
}

impl CodecToks {
    spec fn wf(&self) -> bool {
        self.id@ == tok_id() && self.title@ == tok_title() && self.content@ == tok_content()
            && self.tags@ == tok_tags() && self.schema@ == tok_schema() && self.inputs@
            == tok_inputs() && self.output0@ == tok_output0() && self.output1@ == tok_output1()
    }

    fn new() -> (r: CodecToks)
        ensures
            r.wf(),
    {
        let mut id: Vec<char> = Vec::new();
        push_tok_id(&mut id);
        let mut title: Vec<char> = Vec::new();
        push_tok_title(&mut title);
        let mut content: Vec<char> = Vec::new();
        push_tok_content(&mut content);
        let mut tags: Vec<char> = Vec::new();
        push_tok_tags(&mut tags);
        let mut schema: Vec<char> = Vec::new();
        push_tok_schema(&mut schema);
        let mut inputs: Vec<char> = Vec::new();
        push_tok_inputs(&mut inputs);
        let mut output0: Vec<char> = Vec::new();
        push_tok_output0(&mut output0);
        let mut output1: Vec<char> = Vec::new();
        push_tok_output1(&mut output1);
        proof {
            assert(id@ =~= tok_id());
            assert(title@ =~= tok_title());
            assert(content@ =~= tok_content());
            assert(tags@ =~= tok_tags());
            assert(schema@ =~= tok_schema());
            assert(inputs@ =~= tok_inputs());
            assert(output0@ =~= tok_output0());
            assert(output1@ =~= tok_output1());
        }
        CodecToks { id, title, content, tags, schema, inputs, output0, output1 }
    }
}

/// Decodes one record object starting at `i`, leaving whatever follows it.
#[verifier::rlimit(50)]
fn record_decode_rest(t: &Vec<char>, i: usize) -> (r: Option<(PromptData, usize)>)
    requires
        i <= t@.len(),
    ensures
        r matches Some(p) ==> i < p.1 <= t@.len() && record_parse_rest(suffix(t@, i as int))
            == Some((p.0@, suffix(t@, p.1 as int))),
        r is None ==> record_parse_rest(suffix(t@, i as int)) is None,
{
    let toks = CodecToks::new();
    let n = t.len();
    let j0 = match eat_tok(t, i, &toks.id) {
        Some(j) => j,
        None => {
            return None;
        },
    };
    let (id, j1) = match p_jstr(t, j0) {
        Some(p) => p,
        None => {
            return None;
        },
    };
    let j2 = match eat_tok(t, j1, &toks.title) {
        Some(j) => j,
        None => {
            return None;
        },
    };
    let (title, j3) = match p_jstr(t, j2) {
        Some(p) => p,
        None => {
            return None;
        },
    };
    let j4 = match eat_tok(t, j3, &toks.content) {
        Some(j) => j,
        None => {
            return None;
        },
    };
    let (content, j5) = match p_jstr(t, j4) {
        Some(p) => p,
        None => {
            return None;
        },
    };
    let j6 = match eat_tok(t, j5, &toks.tags) {
        Some(j) => j,
        None => {
            return None;
        },
    };
    let (tags, j7) = match p_tags(t, j6) {
        Some(p) => p,
        None => {
            return None;
        },
    };
    if j7 < n && t[j7] == '}' {
        proof {
            assert(suffix(t@, j7 as int)[0] == '}');
            assert(suffix(t@, j7 as int).drop_first() =~= suffix(t@, j7 + 1));
        }
        let pd = PromptData {
            id: crate::trusted::chars_to_string(&id),
            title: crate::trusted::chars_to_string(&title),
            content: crate::trusted::chars_to_string(&content),
            tags,
            schema: None,
        };
        return Some((pd, j7 + 1));
    }
    proof {
        if suffix(t@, j7 as int).len() >= 1 {
            assert(suffix(t@, j7 as int)[0] == t@[j7 as int]);
        }
    }
    let j8 = match eat_tok(t, j7, &toks.schema) {
        Some(j) => j,
        None => {
            return None;
        },
    };
    let (sc, j9) = match p_schema(t, j8, &toks) {
        Some(p) => p,
        None => {
            return None;
        },
    };
    if j9 < n && t[j9] == '}' {
        proof {
            assert(suffix(t@, j9 as int)[0] == '}');
            assert(suffix(t@, j9 as int).drop_first() =~= suffix(t@, j9 + 1));
        }
        let pd = PromptData {
            id: crate::trusted::chars_to_string(&id),
            title: crate::trusted::chars_to_string(&title),
            content: crate::trusted::chars_to_string(&content),
            tags,
            schema: Some(sc),
        };
        Some((pd, j9 + 1))
    } else {
        proof {
            if suffix(t@, j9 as int).len() >= 1 {
                assert(suffix(t@, j9 as int)[0] == t@[j9 as int]);
            }
        }
        None
    }
}

/// Decodes a whole record text: the object with nothing after it.
pub fn record_decode(t: &Vec<char>) -> (r: Option<PromptData>)
    ensures
        r matches Some(pd) ==> record_parse(t@) == Some(pd@),
        r is None ==> record_parse(t@) is None,
{
    proof {
        assert(suffix(t@, 0) =~= t@);
    }
    match record_decode_rest(t, 0) {
        Some((pd, j)) => {
            if j == t.len() {
                Some(pd)
            } else {
                None
            }
        },
        None => None,
    }
}

/// The canonical JSON text of a chain's metadata.
pub open spec fn chain_json(id: Seq<char>, title: Seq<char>) -> Seq<char> {
    tok_id() + json_str(id) + tok_title() + json_str(title) + seq!['}']
}

/// Parses a chain metadata text: the object with nothing after it.
pub open spec fn chain_parse(s: Seq<char>) -> Option<(Seq<char>, Seq<char>)> {
    match strip(s, tok_id()) {
        Some(s1) => match take_jstr(s1) {
            Some(pid) => match strip(pid.1, tok_title()) {
                Some(s2) => match take_jstr(s2) {
                    Some(pt) => if pt.1 == seq!['}'] {
                        Some((pid.0, pt.0))
                    } else {
                        None
                    },
                    None => None,
                },
                None => None,
            },
            None => None,
        },
        None => None,
    }
}

/// Round trip for chain metadata.
pub proof fn lemma_chain_round(id: Seq<char>, title: Seq<char>)
    ensures
        chain_parse(chain_json(id, title)) == Some((id, title)),
{
    let r1 = json_str(title) + seq!['}'];
    let r0 = json_str(id) + (tok_title() + r1);
    let s = chain_json(id, title);
    assert(s =~= tok_id() + r0);
    lemma_strip_prefix(tok_id(), r0);
    crate::jsonstr::lemma_take_jstr_round(id, tok_title() + r1);
    lemma_strip_prefix(tok_title(), r1);
    crate::jsonstr::lemma_take_jstr_round(title, seq!['}']);
}

/// Encodes a chain's metadata as its canonical JSON text.
pub fn chain_encode(cd: &ChainData) -> (r: Vec<char>)
    ensures
        r@ == chain_json(cd.id@, cd.title@),
{
    let mut out: Vec<char> = Vec::new();
    push_tok_id(&mut out);
    push_jstr(&mut out, &cd.id);
    push_tok_title(&mut out);
    push_jstr(&mut out, &cd.title);
    out.push('}');
    proof {
        assert(out@ =~= chain_json(cd.id@, cd.title@));
    }
    out
}

/// Decodes a chain metadata text.
pub fn chain_decode(t: &Vec<char>) -> (r: Option<ChainData>)
    ensures
        r matches Some(cd) ==> chain_parse(t@) == Some((cd.id@, cd.title@)),
        r is None ==> chain_parse(t@) is None,
{
    let toks = CodecToks::new();
    proof {
        assert(suffix(t@, 0) =~= t@);
    }
    let j0 = match eat_tok(t, 0, &toks.id) {
        Some(j) => j,
        None => {
            return None;
        },
    };
    let (id, j1) = match p_jstr(t, j0) {
        Some(p) => p,
        None => {
            return None;
        },
    };
    let j2 = match eat_tok(t, j1, &toks.title) {
        Some(j) => j,
        None => {
            return None;
        },
    };
    let (title, j3) = match p_jstr(t, j2) {
        Some(p) => p,
        None => {
            return None;
        },
    };
    let n = t.len();
    if j3 < n && t[j3] == '}' && j3 + 1 == n {
        proof {
            assert(suffix(t@, j3 as int) =~= seq!['}']);
        }
        Some(
            ChainData {
                id: crate::trusted::chars_to_string(&id),
                title: crate::trusted::chars_to_string(&title),
            },
        )
    } else {
        proof {
            let sfx = suffix(t@, j3 as int);
            if sfx == seq!['}'] {
                assert(sfx.len() == 1);
                assert(sfx[0] == t@[j3 as int]);
                assert(j3 + 1 == n);
            }
        }
        None
    }
}

} // verus!
