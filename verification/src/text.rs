//! Character-level helpers shared by configuration, routing and health logic.
use vstd::prelude::*;
use vstd::string::*;

verus! {

/// The characters of `s`, in order.
pub fn chars_of(s: &str) -> (v: Vec<char>)
    ensures
        v@ == s@,
{
    let n = s.unicode_len();
    let mut v: Vec<char> = Vec::new();
    let mut i: usize = 0;
    while i < n
        invariant
            n == s@.len(),
            i <= n,
            v@ == s@.subrange(0, i as int),
        decreases n - i,
    {
        let c = s.get_char(i);
        v.push(c);
        i = i + 1;
        assert(v@ =~= s@.subrange(0, i as int));
    }
    assert(v@ =~= s@);
    v
}

/// `p` is a prefix of `s`.
pub open spec fn has_prefix(s: Seq<char>, p: Seq<char>) -> bool {
    p.len() <= s.len() && s.subrange(0, p.len() as int) == p
}

/// `needle` occurs in `hay` starting at position `i`.
pub open spec fn occurs_at(hay: Seq<char>, needle: Seq<char>, i: int) -> bool {
    0 <= i && i + needle.len() <= hay.len() && hay.subrange(i, i + needle.len()) == needle
}

/// `needle` occurs somewhere in `hay` (the empty needle occurs everywhere).
pub open spec fn seq_contains(hay: Seq<char>, needle: Seq<char>) -> bool {
    exists|i: int| occurs_at(hay, needle, i)
}

/// Whether `a` and `b` hold the same characters at positions `start..start + b.len()` of `a`.
fn matches_at(a: &Vec<char>, b: &Vec<char>, start: usize) -> (r: bool)
    requires
        start + b@.len() <= a@.len(),
    ensures
        r == (a@.subrange(start as int, start + b@.len()) == b@),
{
    let alen = a.len();
    let mut j: usize = 0;
    while j < b.len()
        invariant
            alen == a@.len(),
            start + b@.len() <= a@.len(),
            j <= b@.len(),
            forall|k: int| 0 <= k < j ==> a@[start + k] == b@[k],
        decreases b@.len() - j,
    {
        if a[start + j] != b[j] {
            assert(a@.subrange(start as int, start + b@.len())[j as int] != b@[j as int]);
            return false;
        }
        j = j + 1;
    }
    assert(a@.subrange(start as int, start + b@.len()) =~= b@);
    true
}

/// Whether `s` starts with `p`.
pub fn starts_with(s: &str, p: &str) -> (r: bool)
    ensures
        r == has_prefix(s@, p@),
{
    let sv = chars_of(s);
    let pv = chars_of(p);
    if pv.len() > sv.len() {
        return false;
    }
    matches_at(&sv, &pv, 0)
}

/// Whether `needle` occurs in `hay`.
pub fn contains(hay: &str, needle: &str) -> (r: bool)
    ensures
        r == seq_contains(hay@, needle@),
{
    let h = chars_of(hay);
    let nd = chars_of(needle);
    if nd.len() > h.len() {
        assert forall|i: int| !occurs_at(hay@, needle@, i) by {}
        return false;
    }
    let last = h.len() - nd.len();
    let mut i: usize = 0;
    loop
        invariant
            h@ == hay@,
            nd@ == needle@,
            last == h@.len() - nd@.len(),
            nd@.len() <= h@.len(),
            i <= last,
            forall|k: int| 0 <= k < i ==> !occurs_at(hay@, needle@, k),
        decreases last - i,
    {
        if matches_at(&h, &nd, i) {
            assert(occurs_at(hay@, needle@, i as int));
            return true;
        }
        if i >= last {
            assert forall|k: int| !occurs_at(hay@, needle@, k) by {
                if 0 <= k < i {
                }
            }
            return false;
        }
        i = i + 1;
    }
}

/// Whether two strings hold the same characters.
pub fn str_eq(a: &str, b: &str) -> (r: bool)
    ensures
        r == (a@ == b@),
{
    let av = chars_of(a);
    let bv = chars_of(b);
    if av.len() != bv.len() {
        return false;
    }
    let r = matches_at(&av, &bv, 0);
    assert(av@.subrange(0, bv@.len() as int) =~= av@);
    r
}

/// Whether `c` has the Unicode `White_Space` property.
pub open spec fn is_white_space(c: char) -> bool {
    ||| ('\u{9}' <= c && c <= '\u{d}')
    ||| c == ' '
    ||| c == '\u{85}'
    ||| c == '\u{a0}'
    ||| c == '\u{1680}'
    ||| ('\u{2000}' <= c && c <= '\u{200a}')
    ||| c == '\u{2028}'
    ||| c == '\u{2029}'
    ||| c == '\u{202f}'
    ||| c == '\u{205f}'
    ||| c == '\u{3000}'
}

/// Whether `c` has the Unicode `White_Space` property, as `char::is_whitespace`
/// decides.
fn char_is_whitespace(c: char) -> (r: bool)
    ensures
        r == is_white_space(c),
{
    ('\u{9}' <= c && c <= '\u{d}') || c == ' ' || c == '\u{85}' || c == '\u{a0}' || c == '\u{1680}'
        || ('\u{2000}' <= c && c <= '\u{200a}') || c == '\u{2028}' || c == '\u{2029}' || c
        == '\u{202f}' || c == '\u{205f}' || c == '\u{3000}'
}

/// Every character of `s` is white space (so trimming leaves nothing).
pub open spec fn is_blank(s: Seq<char>) -> bool {
    forall|i: int| 0 <= i < s.len() ==> is_white_space(#[trigger] s[i])
}

/// Whether `s` is empty once surrounding white space is trimmed.
pub fn str_is_blank(s: &str) -> (r: bool)
    ensures
        r == is_blank(s@),
{
    let v = chars_of(s);
    let mut i: usize = 0;
    while i < v.len()
        invariant
            v@ == s@,
            i <= v@.len(),
            forall|k: int| 0 <= k < i ==> is_white_space(#[trigger] s@[k]),
        decreases v@.len() - i,
    {
        if !char_is_whitespace(v[i]) {
            return false;
        }
        i = i + 1;
    }
    true
}

/// The Unicode lower-case form of a string, as `str::to_lowercase` computes it.
pub uninterp spec fn lowercase(s: Seq<char>) -> Seq<char>;

/// `str::to_lowercase`: its result is a function of the characters of `s`
/// alone, named `lowercase`; nothing more of the Unicode mapping is stated.
#[verifier::external_body]
pub(crate) fn to_lowercase(s: &str) -> (r: String)
    ensures
        r@ == lowercase(s@),
{
    s.to_lowercase()
}

/// The decimal digits of `n`, most significant first, with no leading zeros.
pub open spec fn decimal(n: nat) -> Seq<char>
    decreases n,
{
    if n < 10 {
        seq![digit_char(n)]
    } else {
        decimal(n / 10).push(digit_char(n % 10))
    }
}

/// The character of a decimal digit.
pub open spec fn digit_char(d: nat) -> char {
    if d == 0 { '0' }
    else if d == 1 { '1' }
    else if d == 2 { '2' }
    else if d == 3 { '3' }
    else if d == 4 { '4' }
    else if d == 5 { '5' }
    else if d == 6 { '6' }
    else if d == 7 { '7' }
    else if d == 8 { '8' }
    else { '9' }
}

/// The one-character text of a decimal digit.
fn digit_text(d: u64) -> (r: &'static str)
    requires
        d < 10,
    ensures
        r@ == seq![digit_char(d as nat)],
{
    proof {
        reveal_strlit("0");
        reveal_strlit("1");
        reveal_strlit("2");
        reveal_strlit("3");
        reveal_strlit("4");
        reveal_strlit("5");
        reveal_strlit("6");
        reveal_strlit("7");
        reveal_strlit("8");
        reveal_strlit("9");
    }
    if d == 0 { "0" }
    else if d == 1 { "1" }
    else if d == 2 { "2" }
    else if d == 3 { "3" }
    else if d == 4 { "4" }
    else if d == 5 { "5" }
    else if d == 6 { "6" }
    else if d == 7 { "7" }
    else if d == 8 { "8" }
    else { "9" }
}

/// The decimal text of `n`, without sign or padding.
pub(crate) fn decimal_string(n: u64) -> (r: String)
    ensures
        r@ == decimal(n as nat),
    decreases n,
{
    if n < 10 {
        String::from_str(digit_text(n))
    } else {
        let head = decimal_string(n / 10);
        let r = head.concat(digit_text(n % 10));
        assert(r@ =~= decimal((n / 10) as nat).push(digit_char((n % 10) as nat)));
        r
    }
}

/// The value of `c` as a digit in base 10 or 16, as `char::to_digit` reads it.
pub open spec fn digit_value(c: char, radix: nat) -> Option<nat> {
    if '0' <= c && c <= '9' {
        Some((c as nat - '0' as nat) as nat)
    } else if radix == 16 && 'a' <= c && c <= 'f' {
        Some((c as nat - 'a' as nat + 10) as nat)
    } else if radix == 16 && 'A' <= c && c <= 'F' {
        Some((c as nat - 'A' as nat + 10) as nat)
    } else {
        None
    }
}

/// Every character of `s` is a digit in `radix`.
pub open spec fn all_digits(s: Seq<char>, radix: nat) -> bool {
    forall|i: int| 0 <= i < s.len() ==> (#[trigger] digit_value(s[i], radix)) is Some
}

/// The number that the digits `s` denote in `radix`.
pub open spec fn digits_value(s: Seq<char>, radix: nat) -> nat
    decreases s.len(),
{
    if s.len() == 0 {
        0
    } else {
        digits_value(s.drop_last(), radix) * radix + digit_value(s.last(), radix).unwrap_or(0)
    }
}

/// The digits that `from_str_radix` reads: a single leading `+` is dropped
/// when more characters follow it.
pub open spec fn unsigned_digits(s: Seq<char>) -> Seq<char> {
    if s.len() > 1 && s[0] == '+' {
        s.drop_first()
    } else {
        s
    }
}

/// What `u64::from_str_radix(s, radix)` gives, `None` standing for its errors:
/// some digits, all valid, whose value fits in 64 bits.
pub open spec fn parse_unsigned(s: Seq<char>, radix: nat) -> Option<u64> {
    let d = unsigned_digits(s);
    if d.len() > 0 && all_digits(d, radix) && digits_value(d, radix) <= u64::MAX {
        Some(digits_value(d, radix) as u64)
    } else {
        None
    }
}

proof fn lemma_digits_value_monotone(s: Seq<char>, radix: nat, j: int, k: int)
    requires
        radix >= 1,
        0 <= j <= k <= s.len(),
    ensures
        digits_value(s.subrange(0, j), radix) <= digits_value(s.subrange(0, k), radix),
    decreases k - j,
{
    if j < k {
        lemma_digits_value_monotone(s, radix, j, k - 1);
        let t = s.subrange(0, k);
        assert(t.drop_last() =~= s.subrange(0, k - 1));
        let prev = digits_value(s.subrange(0, k - 1), radix);
        assert(prev * radix >= prev) by (nonlinear_arith)
            requires
                radix >= 1,
        ;
    }
}

fn char_digit(c: char, radix: u64) -> (r: Option<u64>)
    requires
        radix == 10 || radix == 16,
    ensures
        match digit_value(c, radix as nat) {
            Some(d) => r == Some(d as u64),
            None => r is None,
        },
{
    if '0' <= c && c <= '9' {
        Some((c as u32 - '0' as u32) as u64)
    } else if radix == 16 && 'a' <= c && c <= 'f' {
        Some((c as u32 - 'a' as u32 + 10) as u64)
    } else if radix == 16 && 'A' <= c && c <= 'F' {
        Some((c as u32 - 'A' as u32 + 10) as u64)
    } else {
        None
    }
}

/// Reads an unsigned number in base 10 or 16 the way `u64::from_str_radix` does.
pub fn parse_u64_radix(s: &str, radix: u64) -> (r: Option<u64>)
    requires
        radix == 10 || radix == 16,
    ensures
        r == parse_unsigned(s@, radix as nat),
{
    let v = chars_of(s);
    let start: usize = if v.len() > 1 && v[0] == '+' { 1 } else { 0 };
    let ghost d = unsigned_digits(s@);
    assert(d =~= s@.subrange(start as int, s@.len() as int));
    if start >= v.len() {
        return None;
    }
    let mut acc: u64 = 0;
    let mut i: usize = start;
    while i < v.len()
        invariant
            v@ == s@,
            start <= i <= v@.len(),
            d == s@.subrange(start as int, s@.len() as int),
            d == unsigned_digits(s@),
            radix == 10 || radix == 16,
            all_digits(d.subrange(0, i - start), radix as nat),
            acc == digits_value(d.subrange(0, i - start), radix as nat),
        decreases v@.len() - i,
    {
        let c = v[i];
        let k = i - start;
        let ghost pre = d.subrange(0, k as int);
        let ghost next = d.subrange(0, k + 1);
        assert(next.drop_last() =~= pre);
        assert(next.last() == c);
        match char_digit(c, radix) {
            None => {
                assert(!all_digits(d, radix as nat)) by {
                    assert(digit_value(d[k as int], radix as nat) is None);
                }
                return None;
            },
            Some(dv) => {
                let m = acc.checked_mul(radix);
                match m {
                    None => {
                        proof {
                            assert(digits_value(next, radix as nat) > u64::MAX) by (nonlinear_arith)
                                requires
                                    digits_value(next, radix as nat) == acc * radix + dv,
                                    acc * radix > u64::MAX,
                            ;
                            lemma_digits_value_monotone(d, radix as nat, k + 1, d.len() as int);
                            assert(d.subrange(0, d.len() as int) =~= d);
                        }
                        return None;
                    },
                    Some(m) => {
                        match m.checked_add(dv) {
                            None => {
                                proof {
                                    lemma_digits_value_monotone(d, radix as nat, k + 1, d.len() as int);
                                    assert(d.subrange(0, d.len() as int) =~= d);
                                }
                                return None;
                            },
                            Some(a) => {
                                acc = a;
                                assert(all_digits(next, radix as nat)) by {
                                    assert forall|j: int| 0 <= j < next.len() implies
                                        (#[trigger] digit_value(next[j], radix as nat)) is Some by {
                                        if j < k {
                                            assert(next[j] == pre[j]);
                                        }
                                    }
                                }
                            },
                        }
                    },
                }
            },
        }
        i = i + 1;
    }
    assert(d.subrange(0, d.len() as int) =~= d);
    Some(acc)
}

/// `s` with every leading `"0x"` removed, as `str::trim_start_matches("0x")` leaves it.
pub open spec fn strip_hex_prefixes(s: Seq<char>) -> Seq<char>
    decreases s.len(),
{
    if s.len() >= 2 && s[0] == '0' && s[1] == 'x' {
        strip_hex_prefixes(s.subrange(2, s.len() as int))
    } else {
        s
    }
}

/// The characters of `v` from position `from` on, as a string.
pub fn suffix_string(s: &str, from: usize) -> (r: String)
    requires
        from <= s@.len(),
    ensures
        r@ == s@.subrange(from as int, s@.len() as int),
{
    let n = s.unicode_len();
    let sub = s.substring_char(from, n);
    String::from_str(sub)
}

/// The characters of `s` before position `to`, as a string.
pub fn prefix_string(s: &str, to: usize) -> (r: String)
    requires
        to <= s@.len(),
    ensures
        r@ == s@.subrange(0, to as int),
{
    let sub = s.substring_char(0, to);
    String::from_str(sub)
}

/// `s` without its leading `"0x"` prefixes.
pub fn trim_hex_prefixes(s: &str) -> (r: String)
    ensures
        r@ == strip_hex_prefixes(s@),
{
    let v = chars_of(s);
    let mut i: usize = 0;
    assert(s@.subrange(0, s@.len() as int) =~= s@);
    while i + 1 < v.len() && v[i] == '0' && v[i + 1] == 'x'
        invariant
            v@ == s@,
            i <= v@.len(),
            i % 2 == 0,
            strip_hex_prefixes(s@) == strip_hex_prefixes(s@.subrange(i as int, s@.len() as int)),
        decreases v@.len() - i,
    {
        let ghost rest = s@.subrange(i as int, s@.len() as int);
        assert(rest.subrange(2, rest.len() as int) =~= s@.subrange(i + 2, s@.len() as int));
        i = i + 2;
    }
    let ghost rest = s@.subrange(i as int, s@.len() as int);
    assert(!(rest.len() >= 2 && rest[0] == '0' && rest[1] == 'x'));
    suffix_string(s, i)
}

/// Finds the first position of `c` in `s`.
pub fn find_char(s: &str, c: char) -> (r: Option<usize>)
    ensures
        match r {
            Some(i) => i < s@.len() && s@[i as int] == c && forall|j: int| 0 <= j < i ==> s@[j] != c,
            None => forall|j: int| 0 <= j < s@.len() ==> s@[j] != c,
        },
{
    let v = chars_of(s);
    let mut i: usize = 0;
    while i < v.len()
        invariant
            v@ == s@,
            i <= v@.len(),
            forall|j: int| 0 <= j < i ==> s@[j] != c,
        decreases v@.len() - i,
    {
        if v[i] == c {
            return Some(i);
        }
        i = i + 1;
    }
    None
}

} // verus!
