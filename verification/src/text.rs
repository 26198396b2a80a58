//! Verified text utilities: whitespace trimming and decimal rendering.
//!
//! These back the label store: label lines are trimmed of surrounding
//! whitespace, and out-of-range class indices are rendered as synthetic
//! `class_<i>` names.

use vstd::prelude::*;
use vstd::string::StringExecFns;

verus! {

/// Whether a scalar value is the code of a whitespace character
/// (the set recognised by Unicode's `White_Space` property).
pub open spec fn is_space_code(n: u32) -> bool {
    n == 32 || n == 9 || n == 10 || n == 11 || n == 12 || n == 13 || n == 0x85 || n == 0xA0
        || n == 0x1680 || (0x2000 <= n && n <= 0x200A) || n == 0x2028 || n == 0x2029 || n == 0x202F
        || n == 0x205F || n == 0x3000
}

/// Whether a character is whitespace.
pub open spec fn is_space_char(c: char) -> bool {
    is_space_code(c as u32)
}

/// Runtime whitespace test matching [`is_space_char`].
pub fn is_space(c: char) -> (r: bool)
    ensures
        r == is_space_char(c),
{
    let n = c as u32;
    n == 32 || n == 9 || n == 10 || n == 11 || n == 12 || n == 13 || n == 0x85 || n == 0xA0
        || n == 0x1680 || (0x2000 <= n && n <= 0x200A) || n == 0x2028 || n == 0x2029 || n == 0x202F
        || n == 0x205F || n == 0x3000
}

/// The sequence with its trailing whitespace removed.
pub open spec fn trim_end_spec(s: Seq<char>) -> Seq<char>
    decreases s.len(),
{
    if s.len() > 0 && is_space_char(s.last()) {
        trim_end_spec(s.drop_last())
    } else {
        s
    }
}

/// The sequence with its leading whitespace removed.
pub open spec fn trim_start_spec(s: Seq<char>) -> Seq<char>
    decreases s.len(),
{
    if s.len() > 0 && is_space_char(s.first()) {
        trim_start_spec(s.drop_first())
    } else {
        s
    }
}

/// The sequence with leading and trailing whitespace removed.
pub open spec fn trim_spec(s: Seq<char>) -> Seq<char> {
    trim_start_spec(trim_end_spec(s))
}

/// If every character from position `b` on is whitespace and the one just
/// before `b` (if any) is not, trimming the end keeps exactly the first `b`
/// characters.
proof fn lemma_trim_end_at(s: Seq<char>, b: int)
    requires
        0 <= b <= s.len(),
        forall|k: int| b <= k < s.len() ==> is_space_char(#[trigger] s[k]),
        b > 0 ==> !is_space_char(s[b - 1]),
    ensures
        trim_end_spec(s) == s.take(b),
    decreases s.len(),
{
    if s.len() > 0 && is_space_char(s.last()) {
        assert(b < s.len());
        let t = s.drop_last();
        assert(t =~= s.take(s.len() - 1));
        lemma_trim_end_at(t, b);
        assert(t.take(b) =~= s.take(b));
    } else {
        assert(b == s.len());
        assert(s.take(b) =~= s);
    }
}

/// If every character before position `a` is whitespace and the one at `a`
/// (if any) is not, trimming the start drops exactly the first `a`
/// characters.
proof fn lemma_trim_start_at(s: Seq<char>, a: int)
    requires
        0 <= a <= s.len(),
        forall|k: int| 0 <= k < a ==> is_space_char(#[trigger] s[k]),
        a < s.len() ==> !is_space_char(s[a]),
    ensures
        trim_start_spec(s) == s.skip(a),
    decreases a,
{
    if a == 0 {
        assert(s.skip(0) =~= s);
    } else {
        let t = s.drop_first();
        assert(t =~= s.skip(1));
        lemma_trim_start_at(t, a - 1);
        assert(t.skip(a - 1) =~= s.skip(a));
    }
}

/// Trimming equals the subrange between the first and one-past-the-last
/// non-whitespace positions.
pub proof fn lemma_trim_of_bounds(s: Seq<char>, a: int, b: int)
    requires
        0 <= a <= b <= s.len(),
        forall|k: int| 0 <= k < a ==> is_space_char(#[trigger] s[k]),
        forall|k: int| b <= k < s.len() ==> is_space_char(#[trigger] s[k]),
        a < b ==> !is_space_char(s[a]) && !is_space_char(s[b - 1]),
    ensures
        trim_spec(s) == s.subrange(a, b),
{
    if a < b {
        lemma_trim_end_at(s, b);
        let t = s.take(b);
        lemma_trim_start_at(t, a);
        assert(t.skip(a) =~= s.subrange(a, b));
    } else {
        lemma_trim_end_at(s, 0);
        assert(s.take(0) =~= Seq::<char>::empty());
        assert(trim_start_spec(Seq::<char>::empty()) =~= s.subrange(a, b));
    }
}

/// The character for one decimal digit.
pub open spec fn digit_char(d: nat) -> char {
    if d == 0 {
        '0'
    } else if d == 1 {
        '1'
    } else if d == 2 {
        '2'
    } else if d == 3 {
        '3'
    } else if d == 4 {
        '4'
    } else if d == 5 {
        '5'
    } else if d == 6 {
        '6'
    } else if d == 7 {
        '7'
    } else if d == 8 {
        '8'
    } else {
        '9'
    }
}

/// The decimal rendering of a number, most significant digit first.
pub open spec fn dec_str(n: nat) -> Seq<char>
    decreases n,
{
    if n < 10 {
        seq![digit_char(n)]
    } else {
        dec_str(n / 10) + seq![digit_char(n % 10)]
    }
}

/// The synthetic name given to class index `i` when no loaded label
/// covers it.
pub open spec fn class_label_spec(i: nat) -> Seq<char> {
    "class_"@ + dec_str(i)
}

/// The one-character string for a decimal digit.
fn digit_str(d: usize) -> (r: &'static str)
    requires
        d < 10,
    ensures
        r@ == seq![digit_char(d as nat)],
{
    proof {
        reveal_strlit("0");
        reveal_strlit("1");
        reveal_strlit("2");
        reveal_strlit("3");
        reveal_strlit("4");
        reveal_strlit("5");
        reveal_strlit("6");
        reveal_strlit("7");
        reveal_strlit("8");
        reveal_strlit("9");
    }
    let r = if d == 0 {
        "0"
    } else if d == 1 {
        "1"
    } else if d == 2 {
        "2"
    } else if d == 3 {
        "3"
    } else if d == 4 {
        "4"
    } else if d == 5 {
        "5"
    } else if d == 6 {
        "6"
    } else if d == 7 {
        "7"
    } else if d == 8 {
        "8"
    } else {
        "9"
    };
    proof {
        assert(r@ =~= seq![digit_char(d as nat)]);
    }
    r
}

/// Append the decimal rendering of `n` to `s`.
pub fn push_decimal(s: &mut String, n: usize) -> (nothing: ())
    ensures
        final (s)@ == old(s)@ + dec_str(n as nat),
    decreases n,
{
    let ghost s0 = s@;
    if n >= 10 {
        push_decimal(s, n / 10);
    }
    let d = digit_str(n % 10);
    s.append(d);
    proof {
        if n >= 10 {
            assert(s@ =~= s0 + dec_str(n as nat));
        } else {
            assert(s@ =~= s0 + dec_str(n as nat));
        }
    }
}

/// Build the synthetic `class_<i>` name for index `i`.
pub fn class_label_string(i: usize) -> (r: String)
    ensures
        r@ == class_label_spec(i as nat),
{
    let mut s = String::from_str("class_");
    push_decimal(&mut s, i);
    s
}

} // verus!
