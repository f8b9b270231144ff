//! Character-sequence utilities: decimal digit rendering, integer
//! rendering, and searching within character vectors.
//!
//! Artifact keys and compiler command text are built from these pieces,
//! so each renderer carries an exact sequence-level specification.

use vstd::prelude::*;

verus! {

/// The character for one decimal digit.
pub open spec fn digit_char(d: nat) -> char {
    if d == 0 {
        '0'
    } else if d == 1 {
        '1'
    } else if d == 2 {
        '2'
    } else if d == 3 {
        '3'
    } else if d == 4 {
        '4'
    } else if d == 5 {
        '5'
    } else if d == 6 {
        '6'
    } else if d == 7 {
        '7'
    } else if d == 8 {
        '8'
    } else {
        '9'
    }
}

/// Decimal rendering of a natural number, most significant digit first.
pub open spec fn spec_nat_str(n: nat) -> Seq<char>
    decreases n,
{
    if n < 10 {
        seq![digit_char(n)]
    } else {
        spec_nat_str(n / 10) + seq![digit_char(n % 10)]
    }
}

/// Decimal rendering of a signed number.
pub open spec fn spec_i64_str(n: int) -> Seq<char> {
    if n < 0 {
        seq!['-'] + spec_nat_str((-n) as nat)
    } else {
        spec_nat_str(n as nat)
    }
}

/// One digit as a string slice.
fn digit_str(d: u64) -> (s: &'static str)
    requires
        d < 10,
    ensures
        s@ =~= seq![digit_char(d as nat)],
{
    proof {
        reveal_strlit("0");
        reveal_strlit("1");
        reveal_strlit("2");
        reveal_strlit("3");
        reveal_strlit("4");
        reveal_strlit("5");
        reveal_strlit("6");
        reveal_strlit("7");
        reveal_strlit("8");
        reveal_strlit("9");
    }
    match d {
        0 => "0",
        1 => "1",
        2 => "2",
        3 => "3",
        4 => "4",
        5 => "5",
        6 => "6",
        7 => "7",
        8 => "8",
        _ => "9",
    }
}

/// Append the decimal rendering of `n` to `out`.
pub fn push_nat_str(n: u64, out: &mut String)
    ensures
        final(out)@ == old(out)@ + spec_nat_str(n as nat),
    decreases n,
{
    if n >= 10 {
        push_nat_str(n / 10, out);
    }
    out.append(digit_str(n % 10));
    proof {
        if n >= 10 {
            assert(final(out)@ =~= old(out)@ + spec_nat_str(n as nat));
        } else {
            assert(n % 10 == n);
            assert(final(out)@ =~= old(out)@ + spec_nat_str(n as nat));
        }
    }
}

/// Append the decimal rendering of `n` to `out`.
pub fn push_i64_str(n: i64, out: &mut String)
    ensures
        final(out)@ == old(out)@ + spec_i64_str(n as int),
{
    if n < 0 {
        proof {
            reveal_strlit("-");
        }
        out.append("-");
        let mag_wide: i128 = -(n as i128);
        let mag: u64 = mag_wide as u64;
        push_nat_str(mag, out);
        proof {
            assert(final(out)@ =~= old(out)@ + spec_i64_str(n as int));
        }
    } else {
        push_nat_str(n as u64, out);
    }
}

/// Whether `c` is a decimal digit.
pub open spec fn is_digit(c: char) -> bool {
    48 <= c as int && c as int <= 57
}

/// The numeric value of a digit character.
pub open spec fn digit_of(c: char) -> nat {
    (c as int - 48) as nat
}

/// The number denoted by a digit sequence, most significant first.
pub open spec fn digits_val(s: Seq<char>) -> nat
    decreases s.len(),
{
    if s.len() == 0 {
        0
    } else {
        digits_val(s.drop_last()) * 10 + digit_of(s.last())
    }
}

/// Every character of `s` is a decimal digit.
pub open spec fn all_digits(s: Seq<char>) -> bool {
    forall|i: int| 0 <= i < s.len() ==> is_digit(#[trigger] s[i])
}

/// Position of the first occurrence of `c1` or `c2` in `s`.
pub open spec fn find_char2(s: Seq<char>, c1: char, c2: char) -> Option<int>
    decreases s.len(),
{
    if s.len() == 0 {
        None
    } else if s[0] == c1 || s[0] == c2 {
        Some(0int)
    } else {
        match find_char2(s.drop_first(), c1, c2) {
            None => None,
            Some(i) => Some(i + 1),
        }
    }
}

/// `find_char2` returns the first match, or reports that none exists.
pub proof fn lemma_find_char2(s: Seq<char>, c1: char, c2: char)
    ensures
        match find_char2(s, c1, c2) {
            None => forall|j: int| 0 <= j < s.len() ==> (#[trigger] s[j]) != c1 && s[j] != c2,
            Some(i) => 0 <= i < s.len() && (s[i] == c1 || s[i] == c2) && forall|j: int|
                0 <= j < i ==> (#[trigger] s[j]) != c1 && s[j] != c2,
        },
    decreases s.len(),
{
    if s.len() > 0 && !(s[0] == c1 || s[0] == c2) {
        let rest = s.drop_first();
        lemma_find_char2(rest, c1, c2);
        assert(forall|j: int| 1 <= j < s.len() ==> (#[trigger] s[j]) == rest[j - 1]);
        match find_char2(rest, c1, c2) {
            None => {
                assert(forall|j: int| 0 <= j < s.len() ==> (#[trigger] s[j]) != c1 && s[j] != c2)
                    by {
                    assert(forall|j: int|
                        1 <= j < s.len() ==> (#[trigger] s[j]) != c1 && s[j] != c2) by {
                        assert(forall|j: int|
                            0 <= j < rest.len() ==> (#[trigger] rest[j]) != c1 && rest[j] != c2);
                    }
                }
            },
            Some(i) => {
                assert(s[i + 1] == rest[i]);
                assert(forall|j: int| 0 <= j < i + 1 ==> (#[trigger] s[j]) != c1 && s[j] != c2)
                    by {
                    assert(forall|j: int|
                        0 <= j < rest.len() ==> j < i ==> (#[trigger] rest[j]) != c1 && rest[j]
                            != c2);
                }
            },
        }
    }
}

/// First occurrence of `c1` or `c2` in a character vector.
pub fn find_char2_exec(s: &Vec<char>, c1: char, c2: char) -> (r: Option<usize>)
    ensures
        r matches Some(i) ==> find_char2(s@, c1, c2) == Some(i as int),
        r is None ==> find_char2(s@, c1, c2) is None,
{
    proof {
        lemma_find_char2(s@, c1, c2);
    }
    let mut i: usize = 0;
    while i < s.len()
        invariant
            i <= s@.len(),
            forall|j: int| 0 <= j < i ==> s@[j] != c1 && #[trigger] s@[j] != c2,
        decreases s@.len() - i,
    {
        let c = s[i];
        if c == c1 || c == c2 {
            proof {
                lemma_find_char2(s@, c1, c2);
            }
            return Some(i);
        }
        i = i + 1;
    }
    proof {
        lemma_find_char2(s@, c1, c2);
    }
    None
}

/// Copy of the character range `[from, to)` of `s`.
pub fn subvec(s: &Vec<char>, from: usize, to: usize) -> (v: Vec<char>)
    requires
        from <= to <= s@.len(),
    ensures
        v@ == s@.subrange(from as int, to as int),
{
    let mut v: Vec<char> = Vec::new();
    let mut i: usize = from;
    while i < to
        invariant
            from <= i <= to <= s@.len(),
            v@ == s@.subrange(from as int, i as int),
        decreases to - i,
    {
        v.push(s[i]);
        proof {
            assert(v@ =~= s@.subrange(from as int, (i + 1) as int));
        }
        i = i + 1;
    }
    v
}

/// Whether `c` is a decimal digit.
pub fn char_is_digit(c: char) -> (b: bool)
    ensures
        b == is_digit(c),
{
    let v = c as u32;
    48 <= v && v <= 57
}

/// The pieces of `s` between occurrences of `c`: always one more
/// piece than there are separators, so the empty sequence has one
/// empty piece.
pub open spec fn spec_split(s: Seq<char>, c: char) -> Seq<Seq<char>>
    decreases s.len(),
    via spec_split_dec
{
    match find_char2(s, c, c) {
        None => seq![s],
        Some(i) => seq![s.take(i)] + spec_split(s.skip(i + 1), c),
    }
}

#[via_fn]
proof fn spec_split_dec(s: Seq<char>, c: char) {
    lemma_find_char2(s, c, c);
}

/// Split `s` at every occurrence of `c`.
pub fn split_char(s: &Vec<char>, c: char) -> (parts: Vec<Vec<char>>)
    ensures
        parts@.map_values(|p: Vec<char>| p@) == spec_split(s@, c),
    decreases s@.len(),
{
    match find_char2_exec(s, c, c) {
        None => {
            let mut parts: Vec<Vec<char>> = Vec::new();
            parts.push(subvec(s, 0, s.len()));
            proof {
                broadcast use vstd::seq::Seq::lemma_push_map_commute;

                assert(parts@.map_values(|p: Vec<char>| p@) =~~= spec_split(s@, c));
            }
            parts
        },
        Some(i) => {
            proof {
                lemma_find_char2(s@, c, c);
            }
            let n = s.len();
            let head = subvec(s, 0, i);
            let rest = subvec(s, i + 1, n);
            let tail_parts = split_char(&rest, c);
            let ghost hv = head@;
            let ghost tpv = tail_parts@.map_values(|p: Vec<char>| p@);
            let mut parts: Vec<Vec<char>> = Vec::new();
            parts.push(head);
            proof {
                broadcast use vstd::seq::Seq::lemma_push_map_commute;

                assert(parts@.map_values(|p: Vec<char>| p@) =~~= seq![hv]);
            }
            let mut k: usize = 0;
            while k < tail_parts.len()
                invariant
                    k <= tail_parts@.len(),
                    tpv == tail_parts@.map_values(|p: Vec<char>| p@),
                    parts@.map_values(|p: Vec<char>| p@) == seq![hv].add(tpv.take(k as int)),
                decreases tail_parts@.len() - k,
            {
                let mut piece: Vec<char> = Vec::new();
                let row = &tail_parts[k];
                let mut j: usize = 0;
                while j < row.len()
                    invariant
                        j <= row@.len(),
                        row@ == tail_parts@[k as int]@,
                        k < tail_parts@.len(),
                        piece@ == row@.take(j as int),
                    decreases row@.len() - j,
                {
                    piece.push(row[j]);
                    proof {
                        assert(piece@ =~= row@.take((j + 1) as int));
                    }
                    j = j + 1;
                }
                proof {
                    assert(piece@ =~= tail_parts@[k as int]@);
                }
                parts.push(piece);
                proof {
                    broadcast use vstd::seq::Seq::lemma_push_map_commute;

                    assert(parts@.map_values(|p: Vec<char>| p@) =~~= seq![hv].add(
                        tpv.take((k + 1) as int),
                    ));
                }
                k = k + 1;
            }
            proof {
                assert(tpv.take(tpv.len() as int) =~= tpv);
                assert(parts@.map_values(|p: Vec<char>| p@) =~~= spec_split(s@, c));
            }
            parts
        },
    }
}

/// Whether the characters of `v` spell `s`.
pub fn chars_eq_str(v: &Vec<char>, s: &str) -> (b: bool)
    ensures
        b == (v@ == s@),
{
    let n = s.unicode_len();
    if v.len() != n {
        proof {
            assert(v@.len() != s@.len());
        }
        return false;
    }
    let mut i: usize = 0;
    while i < n
        invariant
            i <= n,
            n == s@.len(),
            v@.len() == n,
            forall|j: int| 0 <= j < i ==> v@[j] == s@[j],
        decreases n - i,
    {
        if v[i] != s.get_char(i) {
            return false;
        }
        i = i + 1;
    }
    proof {
        assert(v@ =~= s@);
    }
    true
}

/// Whether `s` ends with `suffix`.
pub open spec fn spec_ends_with(s: Seq<char>, suffix: Seq<char>) -> bool {
    s.len() >= suffix.len() && s.skip(s.len() - suffix.len()) == suffix
}

/// Whether the string ends with the given suffix.
pub fn str_ends_with(s: &String, suffix: &str) -> (b: bool)
    ensures
        b == spec_ends_with(s@, suffix@),
{
    let sv = str_to_chars(s.as_str());
    let fv = str_to_chars(suffix);
    if sv.len() < fv.len() {
        return false;
    }
    let off = sv.len() - fv.len();
    let mut j: usize = 0;
    while j < fv.len()
        invariant
            j <= fv@.len(),
            sv@ == s@,
            fv@ == suffix@,
            off == sv@.len() - fv@.len(),
            sv@.len() >= fv@.len(),
            off + fv@.len() <= usize::MAX,
            forall|x: int| 0 <= x < j ==> s@[off + x] == suffix@[x],
        decreases fv@.len() - j,
    {
        if sv[off + j] != fv[j] {
            proof {
                assert(s@.skip(off as int)[j as int] != suffix@[j as int]);
            }
            return false;
        }
        j = j + 1;
    }
    proof {
        assert(s@.skip(off as int) =~= suffix@);
    }
    true
}

/// Whether every character of `v` is a decimal digit.
pub fn all_digits_exec(v: &Vec<char>) -> (b: bool)
    ensures
        b == all_digits(v@),
{
    let mut i: usize = 0;
    while i < v.len()
        invariant
            i <= v@.len(),
            forall|j: int| 0 <= j < i ==> is_digit(#[trigger] v@[j]),
        decreases v@.len() - i,
    {
        if !char_is_digit(v[i]) {
            return false;
        }
        i = i + 1;
    }
    true
}

/// The numeric value of a digit character.
pub fn char_digit_val(c: char) -> (d: u64)
    requires
        is_digit(c),
    ensures
        d == digit_of(c),
        d < 10,
{
    (c as u32 - 48) as u64
}

/// The characters of `s` as a vector.
pub fn str_to_chars(s: &str) -> (v: Vec<char>)
    ensures
        v@ == s@,
{
    let len = s.unicode_len();
    let mut v: Vec<char> = Vec::new();
    let mut i: usize = 0;
    while i < len
        invariant
            i <= len,
            len == s@.len(),
            v@ == s@.take(i as int),
        decreases len - i,
    {
        let c = s.get_char(i);
        v.push(c);
        proof {
            assert(v@ =~= s@.take(i + 1 as int));
        }
        i = i + 1;
    }
    proof {
        assert(v@ =~= s@);
    }
    v
}

} // verus!
