//! Field cleanup for the exchange-format records: strip surrounding
//! whitespace and quotes from a field.

use vstd::prelude::*;
use vstd::string::StrSliceExecFns;

verus! {

/// The Unicode whitespace code points, the set `str::trim` removes.
pub open spec fn is_space(c: char) -> bool {
    let u = c as int;
    ||| u == 0x20
    ||| (0x09 <= u && u <= 0x0D)
    ||| u == 0x85
    ||| u == 0xA0
    ||| u == 0x1680
    ||| (0x2000 <= u && u <= 0x200A)
    ||| u == 0x2028
    ||| u == 0x2029
    ||| u == 0x202F
    ||| u == 0x205F
    ||| u == 0x3000
}

/// A single quote.
pub open spec fn is_quote(c: char) -> bool {
    c == '\''
}

/// Drop leading characters the predicate accepts.
pub open spec fn trim_start_by(s: Seq<char>, f: spec_fn(char) -> bool) -> Seq<char>
    decreases s.len(),
{
    if s.len() > 0 && f(s[0]) {
        trim_start_by(s.drop_first(), f)
    } else {
        s
    }
}

/// Drop trailing characters the predicate accepts.
pub open spec fn trim_end_by(s: Seq<char>, f: spec_fn(char) -> bool) -> Seq<char>
    decreases s.len(),
{
    if s.len() > 0 && f(s.last()) {
        trim_end_by(s.drop_last(), f)
    } else {
        s
    }
}

/// Both ends.
pub open spec fn trim_by(s: Seq<char>, f: spec_fn(char) -> bool) -> Seq<char> {
    trim_end_by(trim_start_by(s, f), f)
}

/// What `strip_extras` returns: whitespace stripped, then the
/// surrounding quotes, then whitespace the quotes enclosed.
pub open spec fn stripped(s: Seq<char>) -> Seq<char> {
    trim_by(trim_by(trim_by(s, |c: char| is_space(c)), |c: char| is_quote(c)), |c: char| is_space(c))
}

/// Whitespace test on one character.
fn is_space_exec(c: char) -> (r: bool)
    ensures
        r == is_space(c),
{
    let u: u32 = c as u32;
    u == 0x20 || (0x09 <= u && u <= 0x0D) || u == 0x85 || u == 0xA0 || u == 0x1680 || (0x2000 <= u
        && u <= 0x200A) || u == 0x2028 || u == 0x2029 || u == 0x202F || u == 0x205F || u == 0x3000
}

/// A fully-trimmed window: everything outside [a, b) is removable,
/// the boundary characters are not.
proof fn lemma_trim_start_window(s: Seq<char>, f: spec_fn(char) -> bool, a: int)
    requires
        0 <= a <= s.len(),
        forall|i: int| 0 <= i < a ==> f(#[trigger] s[i]),
        a < s.len() ==> !f(s[a]),
    ensures
        trim_start_by(s, f) == s.subrange(a, s.len() as int),
    decreases a,
{
    if a == 0 {
        if s.len() > 0 && f(s[0]) {
            assert(false);
        }
        assert(s.subrange(0, s.len() as int) =~= s);
    } else {
        assert(f(s[0]));
        let t = s.drop_first();
        assert(forall|i: int| 0 <= i < a - 1 ==> f(#[trigger] t[i]));
        lemma_trim_start_window(t, f, a - 1);
        assert(t.subrange(a - 1, t.len() as int) =~= s.subrange(a, s.len() as int));
    }
}

proof fn lemma_trim_end_window(s: Seq<char>, f: spec_fn(char) -> bool, b: int)
    requires
        0 <= b <= s.len(),
        forall|i: int| b <= i < s.len() ==> f(#[trigger] s[i]),
        b > 0 ==> !f(s[b - 1]),
    ensures
        trim_end_by(s, f) == s.subrange(0, b),
    decreases s.len() - b,
{
    if b == s.len() {
        if s.len() > 0 && f(s.last()) {
            assert(false);
        }
        assert(s.subrange(0, s.len() as int) =~= s);
    } else {
        assert(f(s.last()));
        let t = s.drop_last();
        assert(forall|i: int| b <= i < t.len() ==> f(#[trigger] t[i]));
        lemma_trim_end_window(t, f, b);
        assert(t.subrange(0, b) =~= s.subrange(0, b));
    }
}

/// Trimming a window from both ends in one step.
proof fn lemma_trim_window(s: Seq<char>, f: spec_fn(char) -> bool, a: int, b: int)
    requires
        0 <= a <= b <= s.len(),
        forall|i: int| 0 <= i < a ==> f(#[trigger] s[i]),
        forall|i: int| b <= i < s.len() ==> f(#[trigger] s[i]),
        a < b ==> !f(s[a]) && !f(s[b - 1]),
    ensures
        trim_by(s, f) == s.subrange(a, b),
    decreases 0int,
{
    if a == b {
        // Everything is removable; the trim empties the sequence.
        assert(forall|i: int| 0 <= i < s.len() ==> f(#[trigger] s[i]));
        lemma_trim_start_window(s, f, s.len() as int);
        let e = s.subrange(s.len() as int, s.len() as int);
        assert(e.len() == 0);
        assert(trim_end_by(e, f) == e);
        assert(e =~= s.subrange(a, b));
    } else {
        lemma_trim_start_window(s, f, a);
        let t = s.subrange(a, s.len() as int);
        assert(forall|i: int| b - a <= i < t.len() ==> f(#[trigger] t[i]));
        lemma_trim_end_window(t, f, b - a);
        assert(t.subrange(0, b - a) =~= s.subrange(a, b));
    }
}

/// Strip surrounding whitespace and quotes from a field of an
/// exchange-format record.
pub fn strip_extras(s: &str) -> (r: String)
    ensures
        r@ == stripped(s@),
{
    let n: usize = s.unicode_len();
    let mut a: usize = 0;
    let mut b: usize = n;
    // Whitespace pass.
    while a < b && is_space_exec(s.get_char(a))
        invariant
            0 <= a <= b <= n,
            n == s@.len(),
            forall|i: int| 0 <= i < a ==> is_space(#[trigger] s@[i]),
            forall|i: int| b <= i < n ==> is_space(#[trigger] s@[i]),
        decreases b - a,
    {
        a = a + 1;
    }
    while b > a && is_space_exec(s.get_char(b - 1))
        invariant
            0 <= a <= b <= n,
            n == s@.len(),
            forall|i: int| 0 <= i < a ==> is_space(#[trigger] s@[i]),
            forall|i: int| b <= i < n ==> is_space(#[trigger] s@[i]),
        decreases b,
    {
        b = b - 1;
    }
    proof {
        lemma_trim_window(s@, |c: char| is_space(c), a as int, b as int);
    }
    let ghost w1 = s@.subrange(a as int, b as int);
    // Quote pass.
    let ghost a1 = a;
    let ghost b1 = b;
    while a < b && s.get_char(a) == '\''
        invariant
            a1 <= a <= b <= b1 <= n,
            n == s@.len(),
            w1 == s@.subrange(a1 as int, b1 as int),
            forall|i: int| a1 <= i < a ==> is_quote(#[trigger] s@[i]),
            forall|i: int| b <= i < b1 ==> is_quote(#[trigger] s@[i]),
        decreases b - a,
    {
        a = a + 1;
    }
    while b > a && s.get_char(b - 1) == '\''
        invariant
            a1 <= a <= b <= b1 <= n,
            n == s@.len(),
            w1 == s@.subrange(a1 as int, b1 as int),
            forall|i: int| a1 <= i < a ==> is_quote(#[trigger] s@[i]),
            forall|i: int| b <= i < b1 ==> is_quote(#[trigger] s@[i]),
        decreases b,
    {
        b = b - 1;
    }
    proof {
        assert(forall|i: int| 0 <= i < a - a1 ==> is_quote(#[trigger] w1[i]));
        assert(forall|i: int| b - a1 <= i < w1.len() ==> is_quote(#[trigger] w1[i]));
        lemma_trim_window(w1, |c: char| is_quote(c), a as int - a1 as int, b as int - a1 as int);
        assert(w1.subrange(a as int - a1 as int, b as int - a1 as int) =~= s@.subrange(
            a as int,
            b as int,
        ));
    }
    let ghost w2 = s@.subrange(a as int, b as int);
    // Second whitespace pass, for blanks the quotes enclosed.
    let ghost a2 = a;
    let ghost b2 = b;
    while a < b && is_space_exec(s.get_char(a))
        invariant
            a2 <= a <= b <= b2 <= n,
            n == s@.len(),
            w2 == s@.subrange(a2 as int, b2 as int),
            forall|i: int| a2 <= i < a ==> is_space(#[trigger] s@[i]),
            forall|i: int| b <= i < b2 ==> is_space(#[trigger] s@[i]),
        decreases b - a,
    {
        a = a + 1;
    }
    while b > a && is_space_exec(s.get_char(b - 1))
        invariant
            a2 <= a <= b <= b2 <= n,
            n == s@.len(),
            w2 == s@.subrange(a2 as int, b2 as int),
            forall|i: int| a2 <= i < a ==> is_space(#[trigger] s@[i]),
            forall|i: int| b <= i < b2 ==> is_space(#[trigger] s@[i]),
        decreases b,
    {
        b = b - 1;
    }
    proof {
        assert(forall|i: int| 0 <= i < a - a2 ==> is_space(#[trigger] w2[i]));
        assert(forall|i: int| b - a2 <= i < w2.len() ==> is_space(#[trigger] w2[i]));
        lemma_trim_window(w2, |c: char| is_space(c), a as int - a2 as int, b as int - a2 as int);
        assert(w2.subrange(a as int - a2 as int, b as int - a2 as int) =~= s@.subrange(
            a as int,
            b as int,
        ));
    }
    let out = s.substring_char(a, b);
    out.to_owned()
}

} // verus!
