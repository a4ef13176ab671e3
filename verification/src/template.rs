//! Pure template rendering: `{{` optional-whitespace identifier
//! optional-whitespace `}}` placeholders are replaced by the variable's value,
//! or by the empty string when the variable is absent. Rendering makes exactly
//! one pass: substituted text is never re-scanned.

use crate::kvmap::StrMap;
use crate::trusted::{chars_to_string, str_to_chars};
use vstd::prelude::*;

verus! {

/// ASCII whitespace accepted around a placeholder identifier.
pub open spec fn is_space(c: char) -> bool {
    c as int == 32 || c as int == 9 || c as int == 10 || c as int == 13 || c as int == 11
        || c as int == 12
}

/// Identifier characters: ASCII letters, digits and underscore.
pub open spec fn is_word(c: char) -> bool {
    (97 <= c as int && c as int <= 122) || (65 <= c as int && c as int <= 90) || (48 <= c as int
        && c as int <= 57) || c as int == 95
}

/// The index where the run of whitespace (or identifier characters, when
/// `word` is set) starting at `i` ends.
pub open spec fn run_end(s: Seq<char>, i: int, word: bool) -> int
    decreases s.len() - i,
{
    if i < s.len() && (if word {
        is_word(s[i])
    } else {
        is_space(s[i])
    }) {
        run_end(s, i + 1, word)
    } else {
        i
    }
}

pub proof fn lemma_run_end_bounds(s: Seq<char>, i: int, word: bool)
    requires
        0 <= i <= s.len(),
    ensures
        i <= run_end(s, i, word) <= s.len(),
    decreases s.len() - i,
{
    if i < s.len() && (if word {
        is_word(s[i])
    } else {
        is_space(s[i])
    }) {
        lemma_run_end_bounds(s, i + 1, word);
    }
}

/// The placeholder starting at position `i`, if any: its identifier and the
/// position just after the closing braces.
pub open spec fn placeholder_end(s: Seq<char>, i: int) -> Option<(Seq<char>, int)> {
    if i + 2 <= s.len() && s[i] == '{' && s[i + 1] == '{' {
        let a = run_end(s, i + 2, false);
        let b = run_end(s, a, true);
        if b > a {
            let d = run_end(s, b, false);
            if d + 2 <= s.len() && s[d] == '}' && s[d + 1] == '}' {
                Some((s.subrange(a, b), d + 2))
            } else {
                None
            }
        } else {
            None
        }
    } else {
        None
    }
}

/// A variable's value in the context, or the empty string when absent.
pub open spec fn ctx_lookup(vars: Map<Seq<char>, Seq<char>>, name: Seq<char>) -> Seq<char> {
    if vars.dom().contains(name) {
        vars[name]
    } else {
        Seq::empty()
    }
}

/// The rendering of the template from position `i` on.
pub open spec fn render_from(s: Seq<char>, i: int, vars: Map<Seq<char>, Seq<char>>) -> Seq<char>
    decreases s.len() - i,
{
    if 0 <= i < s.len() {
        match placeholder_end(s, i) {
            Some((name, e)) => if i < e <= s.len() {
                ctx_lookup(vars, name) + render_from(s, e, vars)
            } else {
                seq![s[i]] + render_from(s, i + 1, vars)
            },
            None => seq![s[i]] + render_from(s, i + 1, vars),
        }
    } else {
        Seq::empty()
    }
}

/// The rendering of a whole template against a variable mapping.
pub open spec fn render_spec(t: Seq<char>, vars: Map<Seq<char>, Seq<char>>) -> Seq<char> {
    render_from(t, 0, vars)
}

/// Finds the end of a whitespace or identifier run, as `run_end` describes.
fn scan_run(t: &Vec<char>, i: usize, word: bool) -> (r: usize)
    requires
        i <= t@.len(),
    ensures
        r == run_end(t@, i as int, word),
        i <= r <= t@.len(),
{
    let mut j = i;
    loop
        invariant
            i <= j <= t@.len(),
            run_end(t@, i as int, word) == run_end(t@, j as int, word),
        decreases t@.len() - j,
    {
        if j >= t.len() {
            return j;
        }
        let c: char = t[j];
        let u = c as u32;
        proof {
            vstd::utf8::char_u32_cast(c, u);
        }
        let in_class = if word {
            (97 <= u && u <= 122) || (65 <= u && u <= 90) || (48 <= u && u <= 57) || u == 95
        } else {
            u == 32 || u == 9 || u == 10 || u == 13 || u == 11 || u == 12
        };
        if !in_class {
            return j;
        }
        j += 1;
    }
}

/// Recognises the placeholder starting at `i`, as `placeholder_end` describes.
fn try_placeholder(t: &Vec<char>, i: usize) -> (r: Option<(Vec<char>, usize)>)
    requires
        i < t@.len(),
    ensures
        r matches Some(p) ==> placeholder_end(t@, i as int) == Some((p.0@, p.1 as int)) && i < p.1
            <= t@.len(),
        r is None ==> placeholder_end(t@, i as int) is None,
{
    let n = t.len();
    if !(n - i > 1 && t[i] == '{' && t[i + 1] == '{') {
        return None;
    }
    let a = scan_run(t, i + 2, false);
    let b = scan_run(t, a, true);
    if b == a {
        return None;
    }
    let d = scan_run(t, b, false);
    if !(d < n && n - d > 1 && t[d] == '}' && t[d + 1] == '}') {
        return None;
    }
    let mut name: Vec<char> = Vec::new();
    let mut k = a;
    while k < b
        invariant
            a <= k <= b <= t@.len(),
            name@ =~= t@.subrange(a as int, k as int),
        decreases b - k,
    {
        name.push(t[k]);
        proof {
            assert(name@ =~= t@.subrange(a as int, k + 1));
        }
        k += 1;
    }
    proof {
        assert(name@ =~= t@.subrange(a as int, b as int));
    }
    Some((name, d + 2))
}

/// Renders a template against the variables: each placeholder is replaced by
/// the variable's value, or by the empty string when the variable is absent,
/// in one left-to-right pass.
pub fn render_template(template: &str, vars: &StrMap) -> (r: String)
    requires
        vars.wf(),
    ensures
        r@ == render_spec(template@, vars@),
{
    let t = str_to_chars(template);
    let mut out: Vec<char> = Vec::new();
    let mut i: usize = 0;
    while i < t.len()
        invariant
            vars.wf(),
            0 <= i <= t@.len(),
            render_spec(template@, vars@) == out@ + render_from(t@, i as int, vars@),
            t@ == template@,
        decreases t@.len() - i,
    {
        match try_placeholder(&t, i) {
            Some((name, e)) => {
                let ghost out0 = out@;
                let name_s = chars_to_string(&name);
                match vars.get(&name_s) {
                    Some(value) => {
                        let mut vchars = str_to_chars(value.as_str());
                        out.append(&mut vchars);
                    },
                    None => {},
                }
                proof {
                    assert(out@ =~= out0 + ctx_lookup(vars@, name@));
                    assert(render_from(t@, i as int, vars@) == ctx_lookup(vars@, name@)
                        + render_from(t@, e as int, vars@));
                    assert(out0 + (ctx_lookup(vars@, name@) + render_from(t@, e as int, vars@))
                        =~= out@ + render_from(t@, e as int, vars@));
                }
                i = e;
            },
            None => {
                let ghost out0 = out@;
                out.push(t[i]);
                proof {
                    assert(out@ =~= out0 + seq![t@[i as int]]);
                    assert(out0 + (seq![t@[i as int]] + render_from(t@, i + 1, vars@)) =~= out@
                        + render_from(t@, i + 1, vars@));
                }
                i += 1;
            },
        }
    }
    proof {
        assert(render_from(t@, i as int, vars@) =~= Seq::<char>::empty());
        assert(render_spec(template@, vars@) =~= out@);
    }
    chars_to_string(&out)
}

/// The first index holding the assignment separator, from `i` on.
pub open spec fn first_eq(s: Seq<char>, i: int) -> Option<int>
    decreases s.len() - i,
{
    if i < 0 || i >= s.len() {
        None
    } else if s[i] == '=' {
        Some(i)
    } else {
        first_eq(s, i + 1)
    }
}

pub proof fn lemma_first_eq_bounds(s: Seq<char>, i: int)
    requires
        0 <= i,
    ensures
        first_eq(s, i) matches Some(j) ==> i <= j < s.len() && s[j] == '=',
    decreases s.len() - i,
{
    if !(i >= s.len()) && !(s[i] == '=') {
        lemma_first_eq_bounds(s, i + 1);
    }
}

/// The index where the trailing whitespace run begins, scanning back from `j`.
pub open spec fn trim_end_idx(s: Seq<char>, j: int) -> int
    decreases j,
{
    if 0 < j <= s.len() && is_space(s[j - 1]) {
        trim_end_idx(s, j - 1)
    } else {
        j
    }
}

/// The string with its leading and trailing whitespace removed.
pub open spec fn trim_spec(s: Seq<char>) -> Seq<char> {
    let a = run_end(s, 0, false);
    let b = trim_end_idx(s, s.len() as int);
    if a < b {
        s.subrange(a, b)
    } else {
        Seq::empty()
    }
}

/// The key and value a `key=value` assignment denotes: split at the first
/// separator, both sides trimmed when asked; nothing without a separator.
pub open spec fn assignment_spec(s: Seq<char>, trim: bool) -> Option<(Seq<char>, Seq<char>)> {
    match first_eq(s, 0) {
        Some(i) => {
            let k = s.subrange(0, i);
            let v = s.subrange(i + 1, s.len() as int);
            if trim {
                Some((trim_spec(k), trim_spec(v)))
            } else {
                Some((k, v))
            }
        },
        None => None,
    }
}

/// The context after applying a list of assignments in order; a later
/// assignment for the same key wins, and text without a separator is passed
/// over.
pub open spec fn apply_assignments_spec(
    m: Map<Seq<char>, Seq<char>>,
    items: Seq<String>,
    trim: bool,
) -> Map<Seq<char>, Seq<char>>
    decreases items.len(),
{
    if items.len() == 0 {
        m
    } else {
        apply_assignments_spec(
            match assignment_spec(items.first()@, trim) {
                Some(kv) => m.insert(kv.0, kv.1),
                None => m,
            },
            items.drop_first(),
            trim,
        )
    }
}

/// Removes leading and trailing whitespace.
fn trim_chars(t: &Vec<char>) -> (r: Vec<char>)
    ensures
        r@ == trim_spec(t@),
{
    let a = scan_run(t, 0, false);
    let n = t.len();
    let mut b = n;
    loop
        invariant_except_break
            0 <= b <= n,
            n == t@.len(),
            trim_end_idx(t@, n as int) == trim_end_idx(t@, b as int),
        ensures
            0 <= b <= n,
            n == t@.len(),
            trim_end_idx(t@, n as int) == b as int,
        decreases b,
    {
        if b == 0 {
            break ;
        }
        let c: char = t[b - 1];
        let u = c as u32;
        proof {
            vstd::utf8::char_u32_cast(c, u);
        }
        if !(u == 32 || u == 9 || u == 10 || u == 13 || u == 11 || u == 12) {
            proof {
                assert(!is_space(t@[b - 1]));
            }
            break ;
        }
        b -= 1;
    }
    if a < b {
        crate::paths::chars_range(t, a, b)
    } else {
        let r: Vec<char> = Vec::new();
        proof {
            assert(r@ =~= trim_spec(t@));
        }
        r
    }
}

/// Parses one `key=value` assignment, trimming both sides when asked.
pub fn parse_assignment(s: &str, trim: bool) -> (r: Option<(String, String)>)
    ensures
        r matches Some(kv) ==> assignment_spec(s@, trim) == Some((kv.0@, kv.1@)),
        r is None ==> assignment_spec(s@, trim) is None,
{
    let t = str_to_chars(s);
    let n = t.len();
    let mut i: usize = 0;
    let mut sep: Option<usize> = None;
    while i < n
        invariant_except_break
            0 <= i <= n,
            n == t@.len(),
            sep is None,
            first_eq(t@, 0) == first_eq(t@, i as int),
        ensures
            n == t@.len(),
            sep matches Some(j) ==> first_eq(t@, 0) == Some(j as int) && j < n,
            sep is None ==> first_eq(t@, 0) is None,
        decreases n - i,
    {
        if t[i] == '=' {
            proof {
                assert(first_eq(t@, i as int) == Some(i as int));
            }
            sep = Some(i);
            break ;
        }
        proof {
            assert(first_eq(t@, i as int) == first_eq(t@, i + 1));
        }
        i += 1;
    }
    match sep {
        None => None,
        Some(j) => {
            proof {
                lemma_first_eq_bounds(t@, 0);
            }
            let k = crate::paths::chars_range(&t, 0, j);
            let v = crate::paths::chars_range(&t, j + 1, n);
            if trim {
                let kt = trim_chars(&k);
                let vt = trim_chars(&v);
                Some((chars_to_string(&kt), chars_to_string(&vt)))
            } else {
                Some((chars_to_string(&k), chars_to_string(&v)))
            }
        },
    }
}

/// Applies `key=value` assignments to the variables in order: a later
/// assignment for the same key wins, and text without a separator is passed
/// over.
pub fn apply_assignments(vars: &mut StrMap, items: &Vec<String>, trim: bool)
    requires
        old(vars).wf(),
    ensures
        final(vars).wf(),
        final(vars)@ == apply_assignments_spec(old(vars)@, items@, trim),
{
    let ghost m0 = vars@;
    let n = items.len();
    proof {
        assert(items@.skip(0) =~= items@);
    }
    let mut i: usize = 0;
    while i < n
        invariant
            vars.wf(),
            0 <= i <= n,
            n == items@.len(),
            apply_assignments_spec(m0, items@, trim) == apply_assignments_spec(
                vars@,
                items@.skip(i as int),
                trim,
            ),
        decreases n - i,
    {
        let ghost before = vars@;
        match parse_assignment(items[i].as_str(), trim) {
            Some((k, v)) => {
                vars.insert(k, v);
            },
            None => {},
        }
        proof {
            let rest = items@.skip(i as int);
            assert(rest.first() == items@[i as int]);
            assert(rest.drop_first() =~= items@.skip(i + 1));
        }
        i += 1;
    }
    proof {
        assert(items@.skip(n as int) =~= Seq::<String>::empty());
    }
}

} // verus!
