//! Character-level helpers for the command-line value parsers: splitting on a
//! separator, finding `..`, and reading decimal numbers.
use vstd::prelude::*;
use vstd::string::{StrSliceExecFns, StringExecFns};

verus! {

/// Index of the first `c` in `s` at or after `from`, or `s.len()` if none.
pub open spec fn find_char(s: Seq<char>, c: char, from: int) -> int
    decreases s.len() - from,
{
    if from >= s.len() {
        s.len() as int
    } else if s[from] == c {
        from
    } else {
        find_char(s, c, from + 1)
    }
}

/// The pieces of `s[from..]` between occurrences of `c`, as `str::split` yields them.
pub open spec fn split_from(s: Seq<char>, c: char, from: int) -> Seq<Seq<char>>
    decreases s.len() - from,
{
    let k = find_char(s, c, from);
    if from <= k < s.len() {
        seq![s.subrange(from, k)] + split_from(s, c, k + 1)
    } else {
        seq![s.subrange(from, s.len() as int)]
    }
}

/// The pieces of `s` between occurrences of `c`.
pub open spec fn split_char(s: Seq<char>, c: char) -> Seq<Seq<char>> {
    split_from(s, c, 0)
}

/// Index of the first `".."` in `s` at or after `from`, or `s.len()` if none.
pub open spec fn find_dots(s: Seq<char>, from: int) -> int
    decreases s.len() - from,
{
    if from + 1 >= s.len() {
        s.len() as int
    } else if s[from] == '.' && s[from + 1] == '.' {
        from
    } else {
        find_dots(s, from + 1)
    }
}

pub open spec fn is_digits(s: Seq<char>) -> bool {
    forall|i: int| 0 <= i < s.len() ==> '0' <= #[trigger] s[i] <= '9'
}

/// The value of a string of decimal digits.
pub open spec fn digits_value(s: Seq<char>) -> int
    decreases s.len(),
{
    if s.len() == 0 {
        0
    } else {
        digits_value(s.drop_last()) * 10 + (s.last() as int - '0' as int)
    }
}

/// A decimal `u32`: one or more digits `0`-`9`, no sign, of value below 2^32.
pub open spec fn parse_u32_spec(s: Seq<char>) -> Option<u32> {
    if s.len() > 0 && is_digits(s) && digits_value(s) <= u32::MAX {
        Some(digits_value(s) as u32)
    } else {
        None
    }
}

/// The characters of `s`.
pub(crate) fn chars_of(s: &str) -> (r: Vec<char>)
    ensures
        r@ == s@,
{
    let n = s.unicode_len();
    let mut r: Vec<char> = Vec::new();
    let mut i: usize = 0;
    while i < n
        invariant
            i <= n == s@.len(),
            r@ == s@.subrange(0, i as int),
        decreases n - i,
    {
        r.push(s.get_char(i));
        i = i + 1;
        assert(r@ =~= s@.subrange(0, i as int));
    }
    assert(r@ =~= s@);
    r
}

proof fn lemma_find_skip(s: Seq<char>, c: char, from: int, i: int)
    requires
        0 <= from <= i <= s.len(),
        forall|j: int| from <= j < i ==> s[j] != c,
    ensures
        find_char(s, c, from) == find_char(s, c, i),
    decreases i - from,
{
    if from < i {
        lemma_find_skip(s, c, from + 1, i);
    }
}

/// The pieces of `s` between occurrences of `c`.
pub fn split_on(s: &Vec<char>, c: char) -> (r: Vec<Vec<char>>)
    ensures
        r@.map_values(|p: Vec<char>| p@) == split_char(s@, c),
{
    let mut r: Vec<Vec<char>> = Vec::new();
    let mut cur: Vec<char> = Vec::new();
    let mut start: usize = 0;
    let mut i: usize = 0;
    while i < s.len()
        invariant
            start <= i <= s.len(),
            cur@ == s@.subrange(start as int, i as int),
            forall|j: int| start <= j < i ==> s@[j] != c,
            split_char(s@, c) == r@.map_values(|p: Vec<char>| p@) + split_from(
                s@,
                c,
                start as int,
            ),
        decreases s.len() - i,
    {
        if s[i] == c {
            proof {
                lemma_find_skip(s@, c, start as int, i as int);
                assert(find_char(s@, c, start as int) == i);
                assert(r@.push(cur).map_values(|p: Vec<char>| p@) =~= r@.map_values(
                    |p: Vec<char>| p@,
                ).push(cur@));
            }
            r.push(cur);
            cur = Vec::new();
            start = i + 1;
        } else {
            cur.push(s[i]);
        }
        i = i + 1;
        assert(cur@ =~= s@.subrange(start as int, i as int));
    }
    proof {
        lemma_find_skip(s@, c, start as int, i as int);
        assert(r@.push(cur).map_values(|p: Vec<char>| p@) =~= r@.map_values(|p: Vec<char>| p@).push(
            cur@,
        ));
    }
    r.push(cur);
    proof {
        assert(split_char(s@, c) =~= r@.map_values(|p: Vec<char>| p@));
    }
    r
}

/// Index of the first `".."` at or after `from`, or `s.len()`.
pub fn find_dots_exec(s: &Vec<char>, from: usize) -> (r: usize)
    requires
        from <= s.len(),
    ensures
        r == find_dots(s@, from as int),
        from <= r <= s.len(),
        r < s.len() ==> r + 1 < s.len(),
{
    let mut i = from;
    while i < s.len() && i + 1 < s.len() && !(s[i] == '.' && s[i + 1] == '.')
        invariant
            from <= i <= s.len(),
            find_dots(s@, from as int) == find_dots(s@, i as int),
        decreases s.len() - i,
    {
        i = i + 1;
    }
    if i < s.len() && i + 1 < s.len() {
        i
    } else {
        s.len()
    }
}

/// `s[lo..hi]`.
pub fn sub_chars(s: &Vec<char>, lo: usize, hi: usize) -> (r: Vec<char>)
    requires
        lo <= hi <= s.len(),
    ensures
        r@ == s@.subrange(lo as int, hi as int),
{
    let mut r: Vec<char> = Vec::new();
    let mut i = lo;
    while i < hi
        invariant
            lo <= i <= hi <= s.len(),
            r@ == s@.subrange(lo as int, i as int),
        decreases hi - i,
    {
        r.push(s[i]);
        i = i + 1;
        assert(r@ =~= s@.subrange(lo as int, i as int));
    }
    r
}

/// Reads a decimal `u32`: digits only, no sign, at most `u32::MAX`.
pub fn parse_u32(s: &Vec<char>) -> (r: Option<u32>)
    ensures
        r == parse_u32_spec(s@),
{
    if s.len() == 0 {
        return None;
    }
    let mut v: u64 = 0;
    let mut over = false;
    let mut i: usize = 0;
    while i < s.len()
        invariant
            i <= s.len(),
            is_digits(s@.subrange(0, i as int)),
            !over ==> v == digits_value(s@.subrange(0, i as int)) && v <= u32::MAX,
            over ==> digits_value(s@.subrange(0, i as int)) > u32::MAX,
        decreases s.len() - i,
    {
        let c = s[i];
        if c < '0' || c > '9' {
            assert(!is_digits(s@));
            return None;
        }
        let ghost prefix = s@.subrange(0, i as int);
        let ghost next = s@.subrange(0, i + 1);
        assert(next.drop_last() =~= prefix);
        let digit = (c as u32 - '0' as u32) as u64;
        if !over {
            let nv = v * 10 + digit;
            if nv > u32::MAX as u64 {
                over = true;
            } else {
                v = nv;
            }
        }
        i = i + 1;
        assert(is_digits(next));
    }
    assert(s@.subrange(0, s.len() as int) =~= s@);
    if over {
        None
    } else {
        Some(v as u32)
    }
}

/// The upper-case numeral of a digit value below 16.
pub open spec fn digit_char(d: nat) -> char {
    if d == 0 {
        '0'
    } else if d == 1 {
        '1'
    } else if d == 2 {
        '2'
    } else if d == 3 {
        '3'
    } else if d == 4 {
        '4'
    } else if d == 5 {
        '5'
    } else if d == 6 {
        '6'
    } else if d == 7 {
        '7'
    } else if d == 8 {
        '8'
    } else if d == 9 {
        '9'
    } else if d == 10 {
        'A'
    } else if d == 11 {
        'B'
    } else if d == 12 {
        'C'
    } else if d == 13 {
        'D'
    } else if d == 14 {
        'E'
    } else {
        'F'
    }
}

/// `n` written in base `radix`, most significant digit first, without
/// leading zeros (`0` is one digit).
pub open spec fn numeral(n: nat, radix: nat) -> Seq<char>
    decreases n via numeral_decreases
{
    if 2 <= radix <= n {
        numeral(n / radix, radix).push(digit_char(n % radix))
    } else {
        seq![digit_char(n % radix)]
    }
}

#[via_fn]
proof fn numeral_decreases(n: nat, radix: nat) {
    if 2 <= radix <= n {
        assert(n / radix < n) by (nonlinear_arith)
            requires 2 <= radix <= n;
    }
}

/// `numeral(n, radix)` with leading zeros up to `width` characters.
pub open spec fn padded(n: nat, radix: nat, width: nat) -> Seq<char> {
    let d = numeral(n, radix);
    let z: nat = if d.len() < width { (width - d.len()) as nat } else { 0 };
    Seq::new(z, |i: int| '0') + d
}

/// The numeral of digit `d`.
fn digit_str(d: u64) -> (r: &'static str)
    requires
        d < 16,
    ensures
        r@ == seq![digit_char(d as nat)],
{
    match d {
        0 => {
            proof {
                reveal_strlit("0");
                assert("0"@ =~= seq!['0']);
            }
            "0"
        },
        1 => {
            proof {
                reveal_strlit("1");
                assert("1"@ =~= seq!['1']);
            }
            "1"
        },
        2 => {
            proof {
                reveal_strlit("2");
                assert("2"@ =~= seq!['2']);
            }
            "2"
        },
        3 => {
            proof {
                reveal_strlit("3");
                assert("3"@ =~= seq!['3']);
            }
            "3"
        },
        4 => {
            proof {
                reveal_strlit("4");
                assert("4"@ =~= seq!['4']);
            }
            "4"
        },
        5 => {
            proof {
                reveal_strlit("5");
                assert("5"@ =~= seq!['5']);
            }
            "5"
        },
        6 => {
            proof {
                reveal_strlit("6");
                assert("6"@ =~= seq!['6']);
            }
            "6"
        },
        7 => {
            proof {
                reveal_strlit("7");
                assert("7"@ =~= seq!['7']);
            }
            "7"
        },
        8 => {
            proof {
                reveal_strlit("8");
                assert("8"@ =~= seq!['8']);
            }
            "8"
        },
        9 => {
            proof {
                reveal_strlit("9");
                assert("9"@ =~= seq!['9']);
            }
            "9"
        },
        10 => {
            proof {
                reveal_strlit("A");
                assert("A"@ =~= seq!['A']);
            }
            "A"
        },
        11 => {
            proof {
                reveal_strlit("B");
                assert("B"@ =~= seq!['B']);
            }
            "B"
        },
        12 => {
            proof {
                reveal_strlit("C");
                assert("C"@ =~= seq!['C']);
            }
            "C"
        },
        13 => {
            proof {
                reveal_strlit("D");
                assert("D"@ =~= seq!['D']);
            }
            "D"
        },
        14 => {
            proof {
                reveal_strlit("E");
                assert("E"@ =~= seq!['E']);
            }
            "E"
        },
        _ => {
            proof {
                reveal_strlit("F");
                assert("F"@ =~= seq!['F']);
            }
            "F"
        },
    }
}

/// Appends `numeral(n, radix)`.
fn push_numeral(out: &mut String, n: u64, radix: u64)
    requires
        2 <= radix <= 16,
    ensures
        final(out)@ == old(out)@ + numeral(n as nat, radix as nat),
    decreases n,
{
    if n >= radix {
        proof {
            assert(n / radix < n) by (nonlinear_arith)
                requires 2 <= radix <= n;
        }
        push_numeral(out, n / radix, radix);
    }
    proof {
        assert(n % radix < radix) by (nonlinear_arith)
            requires 2 <= radix;
    }
    out.append(digit_str(n % radix));
    assert(out@ =~= old(out)@ + numeral(n as nat, radix as nat));
}

/// Appends `n` in base `radix` (upper-case digits), padded with leading zeros
/// to at least `width` digits.
pub fn push_digits(out: &mut String, n: u64, radix: u64, width: usize)
    requires
        2 <= radix <= 16,
    ensures
        final(out)@ == old(out)@ + padded(n as nat, radix as nat, width as nat),
{
    let mut t = String::from_str("");
    proof {
        reveal_strlit("");
        assert(t@ =~= Seq::<char>::empty());
    }
    push_numeral(&mut t, n, radix);
    assert(t@ =~= numeral(n as nat, radix as nat));
    let len = t.as_str().unicode_len();
    let ghost o = out@;
    let mut k: usize = len;
    while k < width
        invariant
            len == numeral(n as nat, radix as nat).len(),
            len <= k <= width || (k == len && width <= len),
            out@ == o + Seq::new((k - len) as nat, |i: int| '0'),
        decreases width - k,
    {
        proof {
            reveal_strlit("0");
        }
        out.append("0");
        k = k + 1;
        assert(out@ =~= o + Seq::new((k - len) as nat, |i: int| '0'));
    }
    out.append(t.as_str());
    assert(out@ =~= o + padded(n as nat, radix as nat, width as nat));
}

} // verus!
