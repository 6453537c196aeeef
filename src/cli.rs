//! Command-line options of the search and the parsers of their values.
use vstd::prelude::*;
use vstd::string::StringExecFns;
use crate::text::{
    padded, push_digits,
    chars_of, find_dots, find_dots_exec, parse_u32, parse_u32_spec, split_char, split_on,
    sub_chars,
};

verus! {

/// The options of a search run.
pub struct Cli {
    /// Path to the ROM whose IPL3 is searched.
    pub rom: String,
    /// Whether to write the found `(Y, X)` back into the ROM.
    pub sign: bool,
    /// Seed and target checksum of the chosen CIC.
    pub cic: (u8, u64),
    /// The `Y` to start from.
    pub y_init: Option<u32>,
    /// The `Y` bit layout.
    pub y_bits: Vec<u32>,
    /// Index of the GPU adapter.
    pub gpu_adapter: usize,
    /// Workgroups per dispatch, `(x, y, z)`.
    pub workgroups: (u32, u32, u32),
}

/// Payload words that a layout entry may name: `16 < n < 1023`.
pub open spec fn word_index_ok(n: u32) -> bool {
    16 < n < 1023
}

/// Bit indices `(n - 16) * 32 + b` for `b` in `st..=en`.
pub open spec fn word_bits(n: u32, st: u32, en: u32) -> Seq<u32> {
    Seq::new((en - st + 1) as nat, |k: int| ((n - 16) * 32 + st + k) as u32)
}

/// The bit indices of one layout entry: `N` (all 32 bits of word `N`) or
/// `N[a..b]` (bits `a..=b`), with `N`, `a`, `b` plain decimal numbers, or
/// `None` if the entry has any other shape or is out of range.
pub open spec fn entry_bits(e: Seq<char>) -> Option<Seq<u32>> {
    let parts = split_char(e, '[');
    if parts.len() == 1 {
        match parse_u32_spec(e) {
            Some(n) => if word_index_ok(n) {
                Some(word_bits(n, 0, 31))
            } else {
                None
            },
            None => None,
        }
    } else if parts.len() != 2 {
        None
    } else {
        match parse_u32_spec(parts[0]) {
            None => None,
            Some(n) => if !word_index_ok(n) {
                None
            } else {
                let inner = parts[1];
                let range = inner.drop_last();
                let d = find_dots(range, 0);
                if inner.len() == 0 || inner.last() != ']' {
                    None
                } else if d >= range.len() || find_dots(range, d + 2) < range.len() {
                    None
                } else {
                    match (
                        parse_u32_spec(range.subrange(0, d)),
                        parse_u32_spec(range.subrange(d + 2, range.len() as int)),
                    ) {
                        (Some(st), Some(en)) => if st > en || en >= 32 {
                            None
                        } else {
                            Some(word_bits(n, st, en))
                        },
                        _ => None,
                    }
                }
            },
        }
    }
}

/// The bit indices of a list of entries, in order, or `None` if one is malformed.
pub open spec fn entries_bits(es: Seq<Seq<char>>) -> Option<Seq<u32>>
    decreases es.len(),
{
    if es.len() == 0 {
        Some(Seq::empty())
    } else {
        match entries_bits(es.drop_last()) {
            None => None,
            Some(a) => match entry_bits(es.last()) {
                None => None,
                Some(b) => Some(a + b),
            },
        }
    }
}

/// No value occurs twice.
pub open spec fn distinct(v: Seq<u32>) -> bool {
    forall|i: int, j: int| 0 <= i < j < v.len() ==> v[i] != v[j]
}

/// The bit indices that a `--y-bits` value names, before sorting, or `None` if
/// it is malformed, names more than 32 bits, or names a bit twice.
pub open spec fn ybits_spec(s: Seq<char>) -> Option<Seq<u32>> {
    match entries_bits(split_char(s, ',')) {
        Some(v) => if v.len() <= 32 && distinct(v) {
            Some(v)
        } else {
            None
        },
        None => None,
    }
}

pub open spec fn sorted(v: Seq<u32>) -> bool {
    forall|i: int, j: int| 0 <= i < j < v.len() ==> v[i] <= v[j]
}

/// The seed and target checksum of each known CIC.
pub open spec fn cic_spec(s: Seq<char>) -> Option<(u8, u64)> {
    if s == "6101"@ {
        Some((0x3F, 0x45CC73EE317A))
    } else if s == "6102"@ || s == "7101"@ {
        Some((0x3F, 0xA536C0F1D859))
    } else if s == "6103"@ || s == "7103"@ {
        Some((0x78, 0x586FD4709867))
    } else if s == "6105"@ || s == "7105"@ {
        Some((0x91, 0x8618A45BC2D3))
    } else if s == "6106"@ || s == "7106"@ {
        Some((0x85, 0x2BBAD4E6EB74))
    } else if s == "8303"@ {
        Some((0xDD, 0x32B294E2AB90))
    } else if s == "8401"@ {
        Some((0xDD, 0x6EE8D9E84970))
    } else if s == "5167"@ {
        Some((0xDD, 0x083C6C77E0B1))
    } else if s == "DDUS"@ {
        Some((0xDE, 0x05BA2EF0A5F1))
    } else {
        None
    }
}

/// One to three comma-separated `u32`s; missing ones are 1.
pub open spec fn workgroups_spec(s: Seq<char>) -> Option<(u32, u32, u32)> {
    let p = split_char(s, ',');
    if p.len() == 0 || p.len() > 3 {
        None
    } else {
        let a = parse_u32_spec(p[0]);
        let b = if p.len() > 1 { parse_u32_spec(p[1]) } else { Some(1u32) };
        let c = if p.len() > 2 { parse_u32_spec(p[2]) } else { Some(1u32) };
        match (a, b, c) {
            (Some(x), Some(y), Some(z)) => Some((x, y, z)),
            _ => None,
        }
    }
}

/// Relies on `slice::sort`: orders the elements ascending and keeps them all.
#[verifier::external_body]
fn sort_ascending(v: &mut Vec<u32>)
    ensures
        final(v)@.to_multiset() == old(v)@.to_multiset(),
        sorted(final(v)@),
{
    v.sort();
}

/// `prefix`, then `n` in decimal, then `suffix`.
fn message_with(prefix: &str, n: u64, suffix: &str) -> (r: String)
    ensures
        r@ == prefix@ + padded(n as nat, 10, 1) + suffix@,
{
    let mut m = String::from_str(prefix);
    push_digits(&mut m, n, 10, 1);
    m.append(suffix);
    m
}

/// Why `s` is not a decimal `u32`, in the words `u32::from_str_radix` uses,
/// reporting the first fault from the left as it does.
fn number_error(s: &Vec<char>) -> String {
    if s.len() == 0 {
        return "cannot parse integer from empty string".to_string();
    }
    let mut v: u64 = 0;
    let mut i: usize = 0;
    while i < s.len()
        invariant
            i <= s.len(),
            v <= u32::MAX,
        decreases s.len() - i,
    {
        if s[i] < '0' || s[i] > '9' {
            return "invalid digit found in string".to_string();
        }
        v = v * 10 + (s[i] as u32 - '0' as u32) as u64;
        if v > u32::MAX as u64 {
            return "number too large to fit in target type".to_string();
        }
        i = i + 1;
    }
    "invalid digit found in string".to_string()
}

/// Appends `word_bits(n, st, en)`.
fn push_word_bits(values: &mut Vec<u32>, n: u32, st: u32, en: u32)
    requires
        word_index_ok(n),
        st <= en < 32,
    ensures
        final(values)@ == old(values)@ + word_bits(n, st, en),
{
    let ghost v0 = values@;
    let mut i = st;
    while i <= en
        invariant
            word_index_ok(n),
            st <= i <= en + 1,
            en < 32,
            values@ == v0 + word_bits(n, st, (i - 1) as u32).take((i - st) as int),
        decreases en + 1 - i,
    {
        values.push((n - 16) * 32 + i);
        i = i + 1;
        assert(values@ =~= v0 + word_bits(n, st, (i - 1) as u32).take((i - st) as int));
    }
    assert(word_bits(n, st, (i - 1) as u32).take((i - st) as int) =~= word_bits(n, st, en));
}

/// The bit indices of one layout entry.
fn entry_bits_exec(e: &Vec<char>) -> (r: Result<Vec<u32>, String>)
    ensures
        r is Ok <==> entry_bits(e@) is Some,
        r is Ok ==> r->Ok_0@ == entry_bits(e@)->Some_0,
{
    let parts = split_on(e, '[');
    proof {
        assert(parts@.map_values(|p: Vec<char>| p@).len() == parts.len());
    }
    let mut values: Vec<u32> = Vec::new();
    if parts.len() == 1 {
        let n = match parse_u32(e) {
            Some(n) => n,
            None => {
                return Err(number_error(e));
            },
        };
        if n <= 16 || n >= 1023 {
            return Err(message_with("invalid Y word index: ", n as u64, ""));
        }
        push_word_bits(&mut values, n, 0, 31);
        assert(values@ =~= word_bits(n, 0, 31));
        return Ok(values);
    }
    if parts.len() != 2 {
        return Err("invalid format".to_string());
    }
    proof {
        assert(parts@.map_values(|p: Vec<char>| p@)[0] == parts@[0]@);
        assert(parts@.map_values(|p: Vec<char>| p@)[1] == parts@[1]@);
    }
    let n = match parse_u32(&parts[0]) {
        Some(n) => n,
        None => {
            return Err(number_error(&parts[0]));
        },
    };
    if n <= 16 || n >= 1023 {
        return Err(message_with("invalid Y word index: ", n as u64, ""));
    }
    let inner = &parts[1];
    if inner.len() == 0 || inner[inner.len() - 1] != ']' {
        return Err("invalid format".to_string());
    }
    let range = sub_chars(inner, 0, inner.len() - 1);
    assert(range@ =~= inner@.drop_last());
    let d = find_dots_exec(&range, 0);
    if d >= range.len() {
        return Err("invalid format".to_string());
    }
    if find_dots_exec(&range, d + 2) < range.len() {
        return Err("invalid format".to_string());
    }
    let first = sub_chars(&range, 0, d);
    let second = sub_chars(&range, d + 2, range.len());
    let start = match parse_u32(&first) {
        Some(v) => v,
        None => {
            return Err(number_error(&first));
        },
    };
    let end = match parse_u32(&second) {
        Some(v) => v,
        None => {
            return Err(number_error(&second));
        },
    };
    if start > end {
        return Err("invalid range".to_string());
    }
    if end >= 32 {
        return Err("invalid range".to_string());
    }
    push_word_bits(&mut values, n, start, end);
    assert(values@ =~= word_bits(n, start, end));
    Ok(values)
}

proof fn lemma_entries_prefix_none(es: Seq<Seq<char>>, m: int)
    requires
        0 <= m <= es.len(),
        entries_bits(es.take(m)) is None,
    ensures
        entries_bits(es) is None,
    decreases es.len(),
{
    if m == es.len() {
        assert(es.take(m) =~= es);
    } else {
        assert(es.drop_last().take(m) =~= es.take(m));
        lemma_entries_prefix_none(es.drop_last(), m);
    }
}

/// Parses a `--y-bits` value: comma-separated entries `N` or `N[a..b]` with
/// `16 < N < 1023` and `a <= b <= 31`, naming bits `(N - 16) * 32 + a ..= b`;
/// at most 32 bits in all, none named twice. The indices come back in
/// ascending order.
pub fn ybits_parser(str: &str) -> (r: Result<Vec<u32>, String>)
    ensures
        r is Ok <==> ybits_spec(str@) is Some,
        r is Ok ==> sorted(r->Ok_0@),
        r is Ok ==> r->Ok_0@.to_multiset() == ybits_spec(str@)->Some_0.to_multiset(),
{
    let s = chars_of(str);
    let slices = split_on(&s, ',');
    let ghost es = split_char(s@, ',');
    assert(slices@.map_values(|p: Vec<char>| p@).len() == slices.len());
    let mut values: Vec<u32> = Vec::new();
    let mut k: usize = 0;
    assert(es.take(0) =~= Seq::<Seq<char>>::empty());
    while k < slices.len()
        invariant
            k <= slices.len() == es.len(),
            es == split_char(s@, ','),
            s@ == str@,
            slices@.map_values(|p: Vec<char>| p@) == es,
            entries_bits(es.take(k as int)) == Some(values@),
        decreases slices.len() - k,
    {
        assert(slices@.map_values(|p: Vec<char>| p@)[k as int] == slices@[k as int]@);
        assert(es.take(k + 1).drop_last() =~= es.take(k as int));
        assert(es.take(k + 1).last() == es[k as int]);
        match entry_bits_exec(&slices[k]) {
            Ok(b) => {
                let mut b = b;
                values.append(&mut b);
            },
            Err(m) => {
                proof {
                    lemma_entries_prefix_none(es, k + 1);
                }
                return Err(m);
            },
        }
        k = k + 1;
    }
    assert(es.take(k as int) =~= es);
    if values.len() > 32 {
        return Err(message_with("too many Y bits: ", values.len() as u64, " (max: 32)"));
    }
    assert(entries_bits(split_char(str@, ',')) == Some(values@));
    let mut i: usize = 0;
    while i < values.len()
        invariant
            i <= values.len() <= 32,
            entries_bits(split_char(str@, ',')) == Some(values@),
            forall|a: int, b: int| 0 <= a < b < values.len() && a < i ==> values@[a] != values@[b],
        decreases values.len() - i,
    {
        let mut j: usize = i + 1;
        while j < values.len()
            invariant
                i < j <= values.len() <= 32,
                entries_bits(split_char(str@, ',')) == Some(values@),
                forall|a: int, b: int|
                    0 <= a < b < values.len() && a < i ==> values@[a] != values@[b],
                forall|b: int| i < b < j ==> values@[i as int] != values@[b],
            decreases values.len() - j,
        {
            if values[i] == values[j] {
                return Err(message_with("duplicated Y bit: ", values[i] as u64, ""));
            }
            j = j + 1;
        }
        i = i + 1;
    }
    sort_ascending(&mut values);
    Ok(values)
}

/// Whether two character sequences are equal.
fn same_chars(a: &Vec<char>, b: &Vec<char>) -> (r: bool)
    ensures
        r == (a@ == b@),
{
    if a.len() != b.len() {
        return false;
    }
    let mut i: usize = 0;
    while i < a.len()
        invariant
            i <= a.len() == b.len(),
            forall|j: int| 0 <= j < i ==> a@[j] == b@[j],
        decreases a.len() - i,
    {
        if a[i] != b[i] {
            return false;
        }
        i = i + 1;
    }
    assert(a@ =~= b@);
    true
}

/// Whether `s` spells `lit`.
fn is_name(s: &Vec<char>, lit: &str) -> (r: bool)
    ensures
        r == (s@ == lit@),
{
    let l = chars_of(lit);
    same_chars(s, &l)
}

/// Seed and target checksum of a CIC name.
pub fn cic_parser(str: &str) -> (r: Result<(u8, u64), String>)
    ensures
        r is Ok <==> cic_spec(str@) is Some,
        r is Ok ==> r->Ok_0 == cic_spec(str@)->Some_0,
{
    let s = chars_of(str);
    let (seed, target_checksum): (u8, u64) = if is_name(&s, "6101") {
        (0x3F, 0x45CC73EE317A)
    } else if is_name(&s, "6102") || is_name(&s, "7101") {
        (0x3F, 0xA536C0F1D859)
    } else if is_name(&s, "6103") || is_name(&s, "7103") {
        (0x78, 0x586FD4709867)
    } else if is_name(&s, "6105") || is_name(&s, "7105") {
        (0x91, 0x8618A45BC2D3)
    } else if is_name(&s, "6106") || is_name(&s, "7106") {
        (0x85, 0x2BBAD4E6EB74)
    } else if is_name(&s, "8303") {
        (0xDD, 0x32B294E2AB90)
    } else if is_name(&s, "8401") {
        (0xDD, 0x6EE8D9E84970)
    } else if is_name(&s, "5167") {
        (0xDD, 0x083C6C77E0B1)
    } else if is_name(&s, "DDUS") {
        (0xDE, 0x05BA2EF0A5F1)
    } else {
        return Err("Unknown CIC".to_string());
    };
    Ok((seed, target_checksum))
}

/// Parses `x[,y[,z]]`; missing counts are 1.
pub fn workgroups_parser(str: &str) -> (r: Result<(u32, u32, u32), String>)
    ensures
        r is Ok <==> workgroups_spec(str@) is Some,
        r is Ok ==> r->Ok_0 == workgroups_spec(str@)->Some_0,
{
    let s = chars_of(str);
    let slices = split_on(&s, ',');
    let ghost p = split_char(s@, ',');
    assert(slices@.map_values(|q: Vec<char>| q@).len() == slices.len());
    if slices.len() == 0 || slices.len() > 3 {
        return Err("invalid format".to_string());
    }
    let mut values: [u32; 3] = [1u32; 3];
    let mut i: usize = 0;
    while i < slices.len()
        invariant
            i <= slices.len() <= 3,
            p.len() == slices.len(),
            p == split_char(s@, ','),
            s@ == str@,
            slices@.map_values(|q: Vec<char>| q@) == p,
            forall|j: int| 0 <= j < i ==> parse_u32_spec(p[j]) == Some(#[trigger] values@[j]),
            forall|j: int| i <= j < 3 ==> #[trigger] values@[j] == 1,
        decreases slices.len() - i,
    {
        assert(slices@.map_values(|q: Vec<char>| q@)[i as int] == slices@[i as int]@);
        match parse_u32(&slices[i]) {
            Some(v) => {
                values[i] = v;
            },
            None => {
                return Err(number_error(&slices[i]));
            },
        }
        i = i + 1;
    }
    Ok((values[0], values[1], values[2]))
}

} // verus!
