//! Document text normalization: trim surrounding white space and turn
//! Windows line breaks into bare line feeds.
//!
//! `normalize` removes leading and trailing white space and dissolves every
//! run of `'\r'` characters that ends at a `'\n'`, so each `"\r\n"` becomes
//! `"\n"` and the result never contains a `"\r\n"` again. Normalization is
//! idempotent: see `lemma_normalize_idempotent`.

use crate::strutil::{chars_of, string_of};
use vstd::prelude::*;

verus! {

/// The characters trimmed from the ends of a document: Unicode white space.
pub open spec fn is_space(c: char) -> bool {
    let u: u32 = c as u32;
    u == 0x09 || u == 0x0A || u == 0x0B || u == 0x0C || u == 0x0D || u == 0x20 || u == 0x85 || u
        == 0xA0 || u == 0x1680 || (0x2000 <= u && u <= 0x200A) || u == 0x2028 || u == 0x2029 || u
        == 0x202F || u == 0x205F || u == 0x3000
}

/// Decides `is_space`.
pub fn is_space_char(c: char) -> (r: bool)
    ensures
        r == is_space(c),
{
    let u: u32 = c as u32;
    u == 0x09 || u == 0x0A || u == 0x0B || u == 0x0C || u == 0x0D || u == 0x20 || u == 0x85 || u
        == 0xA0 || u == 0x1680 || (0x2000 <= u && u <= 0x200A) || u == 0x2028 || u == 0x2029 || u
        == 0x202F || u == 0x205F || u == 0x3000
}

/// `s` without its leading white space.
pub open spec fn trim_front_spec(s: Seq<char>) -> Seq<char>
    decreases s.len(),
{
    if s.len() > 0 && is_space(s[0]) {
        trim_front_spec(s.skip(1))
    } else {
        s
    }
}

/// `s` without its trailing white space.
pub open spec fn trim_back_spec(s: Seq<char>) -> Seq<char>
    decreases s.len(),
{
    if s.len() > 0 && is_space(s.last()) {
        trim_back_spec(s.drop_last())
    } else {
        s
    }
}

/// `s` without leading and trailing white space.
pub open spec fn trim_spec(s: Seq<char>) -> Seq<char> {
    trim_back_spec(trim_front_spec(s))
}

/// Holds when `s` starts with a (possibly empty) run of `'\r'` whose first
/// character beyond it is `'\n'`.
pub open spec fn cr_run_to_nl(s: Seq<char>) -> bool
    decreases s.len(),
{
    if s.len() == 0 {
        false
    } else if s[0] == '\r' {
        cr_run_to_nl(s.skip(1))
    } else {
        s[0] == '\n'
    }
}

/// `s` with its Windows line breaks dissolved: every `'\r'` that stands in a
/// run of `'\r'` characters ending at a `'\n'` is removed. Each `"\r\n"`
/// thus becomes `"\n"`, and no new `"\r\n"` can appear in the result.
pub open spec fn fix_breaks_spec(s: Seq<char>) -> Seq<char>
    decreases s.len(),
{
    if s.len() == 0 {
        Seq::empty()
    } else if s[0] == '\r' && cr_run_to_nl(s.skip(1)) {
        fix_breaks_spec(s.skip(1))
    } else {
        seq![s[0]] + fix_breaks_spec(s.skip(1))
    }
}

/// What `normalize` returns: the trimmed text with line breaks fixed.
pub open spec fn normalize_spec(s: Seq<char>) -> Seq<char> {
    fix_breaks_spec(trim_spec(s))
}

/// Holds when `s` contains the two-character substring `"\r\n"`.
pub open spec fn has_crlf(s: Seq<char>) -> bool
    decreases s.len(),
{
    if s.len() < 2 {
        false
    } else {
        (s[0] == '\r' && s[1] == '\n') || has_crlf(s.skip(1))
    }
}

proof fn lemma_trim_front_first(s: Seq<char>)
    ensures
        trim_front_spec(s).len() > 0 ==> !is_space(trim_front_spec(s)[0]),
        trim_front_spec(s).len() <= s.len(),
    decreases s.len(),
{
    if s.len() > 0 && is_space(s[0]) {
        lemma_trim_front_first(s.skip(1));
    }
}

proof fn lemma_trim_front_last(s: Seq<char>)
    requires
        s.len() > 0,
        !is_space(s.last()),
    ensures
        trim_front_spec(s).len() > 0,
        trim_front_spec(s).last() == s.last(),
    decreases s.len(),
{
    if is_space(s[0]) {
        assert(s.len() > 1);
        assert(s.skip(1).last() == s.last());
        lemma_trim_front_last(s.skip(1));
    }
}

proof fn lemma_trim_back_last(s: Seq<char>)
    ensures
        trim_back_spec(s).len() > 0 ==> !is_space(trim_back_spec(s).last()),
        trim_back_spec(s).len() <= s.len(),
    decreases s.len(),
{
    if s.len() > 0 && is_space(s.last()) {
        lemma_trim_back_last(s.drop_last());
    }
}

proof fn lemma_trim_back_first(s: Seq<char>)
    requires
        s.len() > 0,
        !is_space(s[0]),
    ensures
        trim_back_spec(s).len() > 0,
        trim_back_spec(s)[0] == s[0],
    decreases s.len(),
{
    if is_space(s.last()) {
        assert(s.len() > 1);
        assert(s.drop_last()[0] == s[0]);
        lemma_trim_back_first(s.drop_last());
    }
}

/// The trimmed text never starts or ends with white space.
proof fn lemma_trim_edges(s: Seq<char>)
    ensures
        trim_spec(s).len() > 0 ==> !is_space(trim_spec(s)[0]),
        trim_spec(s).len() > 0 ==> !is_space(trim_spec(s).last()),
{
    lemma_trim_front_first(s);
    let f = trim_front_spec(s);
    lemma_trim_back_last(f);
    if trim_spec(s).len() > 0 {
        assert(f.len() > 0);
        lemma_trim_back_first(f);
    }
}

/// Trimming a text whose ends hold no white space changes nothing.
proof fn lemma_trim_id(s: Seq<char>)
    requires
        s.len() > 0 ==> !is_space(s[0]) && !is_space(s.last()),
    ensures
        trim_spec(s) == s,
{
    assert(trim_front_spec(s) == s);
    assert(trim_back_spec(s) == s);
}

/// A `'\r'` run that reaches a `'\n'` is a `"\r\n"` occurrence.
proof fn lemma_cr_run_has_crlf(s: Seq<char>)
    requires
        s.len() > 0,
        s[0] == '\r',
        cr_run_to_nl(s.skip(1)),
    ensures
        has_crlf(s),
    decreases s.len(),
{
    let u = s.skip(1);
    assert(u.len() > 0);
    if u[0] == '\r' {
        assert(u.skip(1) =~= s.skip(2));
        lemma_cr_run_has_crlf(u);
    } else {
        assert(u[0] == '\n');
        assert(s[1] == '\n');
    }
}

/// Fixing line breaks changes nothing in a text without `"\r\n"`.
proof fn lemma_fix_id(s: Seq<char>)
    requires
        !has_crlf(s),
    ensures
        fix_breaks_spec(s) == s,
    decreases s.len(),
{
    if s.len() > 0 {
        if s[0] == '\r' && cr_run_to_nl(s.skip(1)) {
            lemma_cr_run_has_crlf(s);
            assert(false);
        }
        lemma_fix_id(s.skip(1));
        assert(seq![s[0]] + s.skip(1) =~= s);
    }
}

/// The result of fixing line breaks contains no `"\r\n"`.
proof fn lemma_fix_no_crlf(s: Seq<char>)
    ensures
        !has_crlf(fix_breaks_spec(s)),
    decreases s.len(),
{
    if s.len() == 0 {
    } else if s[0] == '\r' && cr_run_to_nl(s.skip(1)) {
        lemma_fix_no_crlf(s.skip(1));
    } else {
        lemma_fix_no_crlf(s.skip(1));
        let rest = fix_breaks_spec(s.skip(1));
        let r = seq![s[0]] + rest;
        assert(r.skip(1) =~= rest);
        if r.len() >= 2 && r[0] == '\r' && r[1] == '\n' {
            assert(s[0] == '\r');
            assert(rest.len() > 0);
            assert(s.len() >= 2);
            let u = s.skip(1);
            if u[0] == '\r' {
                assert(u.skip(1) =~= s.skip(2));
                assert(!cr_run_to_nl(u));
                assert(rest == fix_breaks_spec(u));
                assert(rest[0] == '\r');
            } else {
                assert(u[0] != '\n');
                assert(rest[0] == u[0]);
            }
            assert(false);
        }
    }
}

proof fn lemma_fix_first(s: Seq<char>)
    requires
        s.len() > 0,
        s[0] != '\r',
    ensures
        fix_breaks_spec(s).len() > 0,
        fix_breaks_spec(s)[0] == s[0],
{
}

proof fn lemma_fix_last(s: Seq<char>)
    requires
        s.len() > 0,
        !is_space(s.last()),
    ensures
        fix_breaks_spec(s).len() > 0,
        fix_breaks_spec(s).last() == s.last(),
    decreases s.len(),
{
    if s.len() == 1 {
        assert(s[0] == s.last());
        assert(!cr_run_to_nl(s.skip(1)));
        assert(fix_breaks_spec(s.skip(1)) =~= Seq::<char>::empty());
        assert(fix_breaks_spec(s) =~= seq![s[0]]);
        assert(fix_breaks_spec(s).last() == s[0]);
    } else {
        assert(s.skip(1).last() == s.last());
        lemma_fix_last(s.skip(1));
        let rest = fix_breaks_spec(s.skip(1));
        if s[0] == '\r' && cr_run_to_nl(s.skip(1)) {
            assert(fix_breaks_spec(s) == rest);
        } else {
            assert(fix_breaks_spec(s) == seq![s[0]] + rest);
            assert((seq![s[0]] + rest).last() == rest.last());
        }
    }
}

/// What `normalize` returns is normal: it never starts or ends with white
/// space and contains no `"\r\n"`.
pub proof fn lemma_normalize_is_normal(s: Seq<char>)
    ensures
        !has_crlf(normalize_spec(s)),
        normalize_spec(s).len() > 0 ==> !is_space(normalize_spec(s)[0]) && !is_space(
            normalize_spec(s).last(),
        ),
{
    let t = trim_spec(s);
    lemma_trim_edges(s);
    lemma_fix_no_crlf(t);
    if t.len() > 0 {
        assert(!is_space(t[0]));
        assert(t[0] != '\r');
        lemma_fix_first(t);
        lemma_fix_last(t);
    }
}

/// Normalization is idempotent: normalizing an already-normalized text
/// returns it unchanged, so `normalize` applied twice equals `normalize`
/// applied once, for every input.
pub proof fn lemma_normalize_idempotent(s: Seq<char>)
    ensures
        normalize_spec(normalize_spec(s)) == normalize_spec(s),
{
    lemma_normalize_is_normal(s);
    lemma_normalize_normalized(normalize_spec(s));
}

/// A text with no `"\r\n"` and no leading or trailing white space is
/// already normal: `normalize` returns it unchanged.
pub proof fn lemma_normalize_normalized(s: Seq<char>)
    requires
        !has_crlf(s),
        s.len() > 0 ==> !is_space(s[0]) && !is_space(s.last()),
    ensures
        normalize_spec(s) == s,
{
    lemma_trim_id(s);
    lemma_fix_id(s);
}

/// Decides `cr_run_to_nl(v@.subrange(from, to))`.
fn cr_run_to_nl_in(v: &Vec<char>, from: usize, to: usize) -> (r: bool)
    requires
        from <= to <= v@.len(),
    ensures
        r == cr_run_to_nl(v@.subrange(from as int, to as int)),
{
    let mut j: usize = from;
    while j < to && v[j] == '\r'
        invariant
            from <= j <= to <= v@.len(),
            cr_run_to_nl(v@.subrange(j as int, to as int)) == cr_run_to_nl(
                v@.subrange(from as int, to as int),
            ),
        decreases to - j,
    {
        proof {
            assert(v@.subrange(j as int, to as int).skip(1) =~= v@.subrange(
                j + 1 as int,
                to as int,
            ));
        }
        j += 1;
    }
    if j < to {
        v[j] == '\n'
    } else {
        false
    }
}

/// The normalized form of `s`: leading and trailing white space removed and
/// Windows line breaks turned into bare line feeds.
pub fn normalize(s: &str) -> (r: String)
    ensures
        r@ == normalize_spec(s@),
{
    let v = chars_of(s);
    let n = v.len();
    let mut lo: usize = 0;
    proof {
        assert(v@.skip(0) =~= v@);
    }
    while lo < n && is_space_char(v[lo])
        invariant
            n == v@.len(),
            lo <= n,
            trim_front_spec(v@.skip(lo as int)) == trim_front_spec(v@),
        decreases n - lo,
    {
        proof {
            assert(v@.skip(lo as int).skip(1) =~= v@.skip(lo + 1 as int));
        }
        lo += 1;
    }
    proof {
        assert(trim_front_spec(v@) == v@.skip(lo as int));
    }
    let mut hi: usize = n;
    proof {
        assert(v@.subrange(lo as int, n as int) =~= v@.skip(lo as int));
    }
    while hi > lo && is_space_char(v[hi - 1])
        invariant
            lo <= hi <= n,
            n == v@.len(),
            trim_back_spec(v@.subrange(lo as int, hi as int)) == trim_back_spec(
                v@.skip(lo as int),
            ),
        decreases hi,
    {
        proof {
            let u = v@.subrange(lo as int, hi as int);
            assert(u.last() == v@[hi - 1]);
            assert(u.drop_last() =~= v@.subrange(lo as int, (hi - 1) as int));
        }
        hi -= 1;
    }
    let ghost t = v@.subrange(lo as int, hi as int);
    proof {
        assert(v@.subrange(lo as int, n as int) =~= v@.skip(lo as int));
        assert(trim_spec(v@) == t);
    }
    let mut out: Vec<char> = Vec::new();
    let mut i: usize = lo;
    proof {
        assert(out@ + fix_breaks_spec(t) =~= fix_breaks_spec(t));
    }
    while i < hi
        invariant
            lo <= i <= hi <= v@.len(),
            t == v@.subrange(lo as int, hi as int),
            out@ + fix_breaks_spec(v@.subrange(i as int, hi as int)) == fix_breaks_spec(t),
        decreases hi - i,
    {
        let ghost cur = v@.subrange(i as int, hi as int);
        proof {
            assert(cur.skip(1) =~= v@.subrange(i + 1 as int, hi as int));
            assert(cur[0] == v@[i as int]);
        }
        let c = v[i];
        if c == '\r' && cr_run_to_nl_in(&v, i + 1, hi) {
            proof {
                assert(fix_breaks_spec(cur) == fix_breaks_spec(
                    v@.subrange(i + 1 as int, hi as int),
                ));
            }
        } else {
            out.push(c);
            proof {
                let rest = fix_breaks_spec(v@.subrange(i + 1 as int, hi as int));
                assert(fix_breaks_spec(cur) == seq![c] + rest);
                assert((out@ + rest) =~= (out@.drop_last() + (seq![c] + rest)));
            }
        }
        i += 1;
    }
    proof {
        assert(v@.subrange(hi as int, hi as int) =~= Seq::<char>::empty());
        assert(out@ =~= fix_breaks_spec(t));
    }
    string_of(&out)
}

} // verus!
