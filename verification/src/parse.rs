//! Text scanning for the layered cursor description: quoted-key lookup,
//! hex color parsing and re-encoding, integers, booleans, and decimal
//! numbers read into fixed-point coordinates.

use vstd::prelude::*;
use vstd::string::StringSliceAdditionalSpecFns;

verus! {

/// ASCII double quote.
pub const BYTE_QUOTE: u8 = 34;

/// ASCII number sign, which introduces a color value.
pub const BYTE_HASH: u8 = 35;

/// Whether `pat` occurs in `h` at position `i`.
pub open spec fn is_match_at(h: Seq<u8>, pat: Seq<u8>, i: int) -> bool {
    0 <= i && i + pat.len() <= h.len() && h.subrange(i, i + pat.len()) == pat
}

/// First position at or after `i` where `pat` occurs in `h`.
pub open spec fn find_from(h: Seq<u8>, pat: Seq<u8>, i: int) -> Option<int>
    decreases h.len() - i,
{
    if i < 0 || i + pat.len() > h.len() {
        None
    } else if pat.len() == 0 {
        Some(i)
    } else if is_match_at(h, pat, i) {
        Some(i)
    } else {
        find_from(h, pat, i + 1)
    }
}

/// `find_from` answers the first match: none lies before it.
pub proof fn lemma_find_from_hit(h: Seq<u8>, pat: Seq<u8>, start: int, j: int)
    requires
        0 <= start <= j,
        pat.len() > 0,
        is_match_at(h, pat, j),
        forall|k: int| start <= k < j ==> !is_match_at(h, pat, k),
    ensures
        find_from(h, pat, start) == Some(j),
    decreases j - start,
{
    if start < j {
        lemma_find_from_hit(h, pat, start + 1, j);
    }
}

/// Without any match at or after `start` there is nothing to find.
pub proof fn lemma_find_from_miss(h: Seq<u8>, pat: Seq<u8>, start: int)
    requires
        pat.len() > 0,
        forall|k: int| start <= k ==> !is_match_at(h, pat, k),
    ensures
        find_from(h, pat, start) is None,
    decreases h.len() - start,
{
    if start >= 0 && start + pat.len() <= h.len() {
        lemma_find_from_miss(h, pat, start + 1);
    }
}

/// A found position carries a real match.
pub proof fn lemma_find_from_found(h: Seq<u8>, pat: Seq<u8>, i: int)
    requires
        pat.len() > 0,
    ensures
        match find_from(h, pat, i) {
            Some(j) => is_match_at(h, pat, j),
            None => true,
        },
    decreases h.len() - i,
{
    if i >= 0 && i + pat.len() <= h.len() && !is_match_at(h, pat, i) {
        lemma_find_from_found(h, pat, i + 1);
    }
}

/// Byte-for-byte equality of two byte slices.
pub fn bytes_eq(a: &[u8], b: &[u8]) -> (r: bool)
    ensures
        r == (a@ == b@),
{
    if a.len() != b.len() {
        assert(a@.len() != b@.len());
        return false;
    }
    let n = a.len();
    let mut i: usize = 0;
    while i < n
        invariant
            n == a@.len() == b@.len(),
            i <= n,
            forall|j: int| 0 <= j < i ==> a@[j] == b@[j],
        decreases n - i,
    {
        if a[i] != b[i] {
            return false;
        }
        i = i + 1;
    }
    assert(a@ =~= b@);
    true
}

/// Whether `pat` occurs at position `i` of `h`.
fn match_at(h: &[u8], pat: &[u8], i: usize) -> (r: bool)
    requires
        i + pat@.len() <= h@.len(),
    ensures
        r == is_match_at(h@, pat@, i as int),
{
    let hl = h.len();
    let m = pat.len();
    let mut k: usize = 0;
    while k < m
        invariant
            k <= m,
            m == pat@.len(),
            hl == h@.len(),
            i + m <= hl,
            forall|j: int| 0 <= j < k ==> h@[i + j] == pat@[j],
        decreases m - k,
    {
        if h[i + k] != pat[k] {
            assert(h@.subrange(i as int, i + m) != pat@) by {
                assert(h@.subrange(i as int, i + m)[k as int] == h@[i + k]);
            }
            return false;
        }
        k = k + 1;
    }
    assert(h@.subrange(i as int, i + m) =~= pat@);
    true
}

/// First occurrence of `pat` in `h` at or after `start`.
pub fn find_sub(h: &[u8], pat: &[u8], start: usize) -> (r: Option<usize>)
    requires
        pat@.len() > 0,
    ensures
        match r {
            Some(j) => j >= start && find_from(h@, pat@, start as int) == Some(j as int),
            None => find_from(h@, pat@, start as int) is None,
        },
{
    if pat.len() > h.len() || start > h.len() - pat.len() {
        proof {
            lemma_find_from_miss(h@, pat@, start as int);
        }
        return None;
    }
    let hl = h.len();
    let last = hl - pat.len();
    let mut j: usize = start;
    while j <= last
        invariant
            pat@.len() > 0,
            pat@.len() <= h@.len(),
            hl == h@.len(),
            last == h@.len() - pat@.len(),
            start <= j <= last + 1,
            forall|k: int| start <= k < j ==> !is_match_at(h@, pat@, k),
        decreases last + 1 - j,
    {
        if match_at(h, pat, j) {
            proof {
                lemma_find_from_hit(h@, pat@, start as int, j as int);
            }
            return Some(j);
        }
        j = j + 1;
    }
    proof {
        lemma_find_from_miss(h@, pat@, start as int);
    }
    None
}

/// The pattern a key is searched as: the key between double quotes.
pub open spec fn quoted(key: Seq<u8>) -> Seq<u8> {
    seq![BYTE_QUOTE] + key + seq![BYTE_QUOTE]
}

/// Builds the quoted search pattern for a key.
fn quote_key(key: &[u8]) -> (r: Vec<u8>)
    ensures
        r@ == quoted(key@),
{
    let mut pat: Vec<u8> = Vec::new();
    pat.push(BYTE_QUOTE);
    let mut i: usize = 0;
    while i < key.len()
        invariant
            i <= key@.len(),
            pat@ == seq![BYTE_QUOTE] + key@.take(i as int),
        decreases key@.len() - i,
    {
        pat.push(key[i]);
        proof {
            assert(seq![BYTE_QUOTE] + key@.take(i + 1) =~= (seq![BYTE_QUOTE] + key@.take(i as int)).push(key@[i as int]));
        }
        i = i + 1;
    }
    pat.push(BYTE_QUOTE);
    proof {
        assert(key@.take(key@.len() as int) =~= key@);
        assert(pat@ =~= quoted(key@));
    }
    pat
}

/// Whether a byte is an ASCII hexadecimal digit.
pub open spec fn is_hex_digit(b: u8) -> bool {
    (48 <= b <= 57) || (65 <= b <= 70) || (97 <= b <= 102)
}

/// Value of one hexadecimal digit.
pub open spec fn hex_val(b: u8) -> int {
    if 48 <= b <= 57 {
        b - 48
    } else if 65 <= b <= 70 {
        b - 55
    } else {
        b - 87
    }
}

/// Number of consecutive hexadecimal digits in `h` starting at `i`.
pub open spec fn hex_run_len(h: Seq<u8>, i: int) -> int
    decreases h.len() - i,
{
    if 0 <= i < h.len() && is_hex_digit(h[i]) {
        1 + hex_run_len(h, i + 1)
    } else {
        0
    }
}

/// Value of `n` hexadecimal digits of `h` starting at `i`, most
/// significant first.
pub open spec fn hex_num(h: Seq<u8>, i: int, n: nat) -> int
    decreases n,
{
    if n == 0 {
        0
    } else {
        hex_num(h, i, (n - 1) as nat) * 16 + hex_val(h[i + n - 1])
    }
}

/// The color encoded by a maximal run of hexadecimal digits: eight or more
/// digits give alpha from the first two and the color from the next six;
/// six or seven give an opaque color from the first six; fewer give
/// nothing.
pub open spec fn color_from_digits(h: Seq<u8>, i: int, run: int) -> Option<u32> {
    if run >= 8 {
        Some((hex_num(h, i, 8) as u32))
    } else if run >= 6 {
        Some((0xFF000000 + hex_num(h, i, 6)) as u32)
    } else {
        None
    }
}

/// The color value a key names in a description: the first `"key"`
/// occurrence is located, the first `#` after it introduces the digits.
pub open spec fn spec_parse_color(h: Seq<u8>, key: Seq<u8>) -> Option<u32> {
    match find_from(h, quoted(key), 0) {
        None => None,
        Some(p) => match find_from(h, seq![BYTE_HASH], p) {
            None => None,
            Some(hp) => color_from_digits(h, hp + 1, hex_run_len(h, hp + 1)),
        },
    }
}

/// Bound on an `n`-digit hexadecimal value.
proof fn lemma_hex_num_bound(h: Seq<u8>, i: int, n: nat)
    requires
        forall|k: int| i <= k < i + n ==> is_hex_digit(h[k]),
    ensures
        0 <= hex_num(h, i, n) < pow16(n),
    decreases n,
{
    if n == 0 {
        assert(pow16(0) == 1);
    } else {
        lemma_hex_num_bound(h, i, (n - 1) as nat);
        assert(0 <= hex_val(h[i + n - 1]) < 16);
        assert(hex_num(h, i, (n - 1) as nat) * 16 + 16 <= pow16((n - 1) as nat) * 16) by (nonlinear_arith)
            requires
                hex_num(h, i, (n - 1) as nat) < pow16((n - 1) as nat),
        ;
    }
}

/// Sixteen to the power `n`.
pub open spec fn pow16(n: nat) -> int
    decreases n,
{
    if n == 0 {
        1
    } else {
        16 * pow16((n - 1) as nat)
    }
}

/// Reads `n <= 8` hexadecimal digits from `h` starting at `i`.
fn read_hex(h: &[u8], i: usize, n: usize) -> (r: u32)
    requires
        i + n <= h@.len(),
        n <= 8,
        forall|k: int| i <= k < i + n ==> is_hex_digit(h@[k]),
    ensures
        r == hex_num(h@, i as int, n as nat),
{
    let hl = h.len();
    let mut acc: u32 = 0;
    let mut k: usize = 0;
    while k < n
        invariant
            k <= n,
            n <= 8,
            hl == h@.len(),
            i + n <= hl,
            forall|j: int| i <= j < i + n ==> is_hex_digit(h@[j]),
            acc == hex_num(h@, i as int, k as nat),
            acc < pow16(k as nat),
        decreases n - k,
    {
        let b = h[i + k];
        let d: u32 = if b >= 97 {
            (b - 87) as u32
        } else if b >= 65 {
            (b - 55) as u32
        } else {
            (b - 48) as u32
        };
        proof {
            lemma_hex_num_bound(h@, i as int, (k + 1) as nat);
            assert(pow16(8) == 0x100000000) by {
        reveal_with_fuel(pow16, 9);
    }
            assert(pow16(k as nat) * 16 <= pow16(8)) by {
                lemma_pow16_mono((k + 1) as nat, 8);
            }
        }
        acc = acc * 16 + d;
        k = k + 1;
    }
    acc
}

/// `pow16` grows with its exponent.
proof fn lemma_pow16_mono(a: nat, b: nat)
    requires
        a <= b,
    ensures
        pow16(a) <= pow16(b),
        pow16(a) >= 1,
    decreases b,
{
    if a == 0 {
        if b > 0 {
            lemma_pow16_mono(0, (b - 1) as nat);
        }
    } else {
        lemma_pow16_mono((a - 1) as nat, (b - 1) as nat);
        assert(16 * pow16((a - 1) as nat) <= 16 * pow16((b - 1) as nat)) by (nonlinear_arith)
            requires
                pow16((a - 1) as nat) <= pow16((b - 1) as nat),
        ;
    }
}

/// Whether a byte is an ASCII hexadecimal digit.
fn hex_digit(b: u8) -> (r: bool)
    ensures
        r == is_hex_digit(b),
{
    (48 <= b && b <= 57) || (65 <= b && b <= 70) || (97 <= b && b <= 102)
}

/// Length of the run of hexadecimal digits at `i`, counted up to `cap`.
fn hex_run_upto(h: &[u8], i: usize, cap: usize) -> (r: usize)
    requires
        i <= h@.len(),
    ensures
        r <= cap,
        i + r <= h@.len(),
        r == (if hex_run_len(h@, i as int) <= cap { hex_run_len(h@, i as int) } else { cap as int }),
        forall|k: int| i <= k < i + r ==> is_hex_digit(h@[k]),
    decreases h@.len() - i,
{
    proof {
        lemma_hex_run_nonneg(h@, i as int);
    }
    if cap == 0 {
        return 0;
    }
    if i < h.len() && hex_digit(h[i]) {
        let rest = hex_run_upto(h, i + 1, cap - 1);
        rest + 1
    } else {
        0
    }
}

proof fn lemma_hex_run_nonneg(h: Seq<u8>, i: int)
    ensures
        hex_run_len(h, i) >= 0,
    decreases h.len() - i,
{
    if 0 <= i < h.len() && is_hex_digit(h[i]) {
        lemma_hex_run_nonneg(h, i + 1);
    }
}

/// Parses a color value written `"key": "#RRGGBB"` or `"key": "#AARRGGBB"`
/// out of a description: the digits after the first `#` following the
/// first occurrence of the quoted key.
pub fn parse_color(content: &str, key: &str) -> (r: Option<u32>)
    ensures
        r == spec_parse_color_bytes(content, key),
{
    parse_color_in(content.as_bytes(), key.as_bytes())
}

/// `parse_color` over raw bytes.
pub fn parse_color_in(h: &[u8], key: &[u8]) -> (r: Option<u32>)
    ensures
        r == spec_parse_color(h@, key@),
{
    let pat = quote_key(key);
    let p = match find_sub(h, pat.as_slice(), 0) {
        Some(p) => p,
        None => {
            return None;
        },
    };
    let hash_pat: [u8; 1] = [BYTE_HASH];
    proof {
        assert(hash_pat@ =~= seq![BYTE_HASH]);
    }
    let hp = match find_sub(h, hash_pat.as_slice(), p) {
        Some(hp) => hp,
        None => {
            return None;
        },
    };
    let hl = h.len();
    proof {
        lemma_find_from_found(h@, hash_pat@, p as int);
        assert(hp < hl);
    }
    let s = hp + 1;
    let run = hex_run_upto(h, s, 8);
    if run >= 8 {
        Some(read_hex(h, s, 8))
    } else if run >= 6 {
        let rgb = read_hex(h, s, 6);
        proof {
            lemma_hex_num_bound(h@, s as int, 6);
            assert(pow16(6) == 0x1000000) by {
        reveal_with_fuel(pow16, 7);
    }
        }
        Some(0xFF000000u32 + rgb)
    } else {
        None
    }
}

/// The color a key names, over a string's bytes.
pub open spec fn spec_parse_color_bytes(content: &str, key: &str) -> Option<u32> {
    spec_parse_color(content.spec_bytes(), key.spec_bytes())
}

/// Hexadecimal digit encoding a value below sixteen, upper case.
pub open spec fn hex_digit_of(v: int) -> u8 {
    if v < 10 {
        (48 + v) as u8
    } else {
        (55 + v) as u8
    }
}

/// The `n`-th hexadecimal digit of `c` counted from the least significant.
pub open spec fn nibble(c: u32, j: nat) -> int {
    (c as int / pow16(j)) % 16
}

/// The eight- or six-digit upper-case hexadecimal encoding of a color:
/// `AARRGGBB` with the alpha, `RRGGBB` without.
pub open spec fn spec_encode_color(c: u32, with_alpha: bool) -> Seq<u8> {
    if with_alpha {
        Seq::new(8, |k: int| hex_digit_of(nibble(c, (7 - k) as nat)))
    } else {
        Seq::new(6, |k: int| hex_digit_of(nibble(c, (5 - k) as nat)))
    }
}

/// Encodes a color as hexadecimal digits, `AARRGGBB` with alpha or
/// `RRGGBB` without.
pub fn encode_color(c: u32, with_alpha: bool) -> (r: Vec<u8>)
    ensures
        r@ == spec_encode_color(c, with_alpha),
{
    let n: usize = if with_alpha { 8 } else { 6 };
    let mut out: Vec<u8> = Vec::new();
    let mut k: usize = 0;
    while k < n
        invariant
            k <= n,
            n == (if with_alpha { 8int } else { 6int }),
            out@.len() == k,
            forall|j: int| 0 <= j < k ==> out@[j] == hex_digit_of(nibble(c, (n - 1 - j) as nat)),
        decreases n - k,
    {
        let shift = n - 1 - k;
        let v = nibble_exec(c, shift as u32);
        let d: u8 = if v < 10 {
            (48 + v) as u8
        } else {
            (55 + v) as u8
        };
        out.push(d);
        k = k + 1;
    }
    proof {
        assert(out@ =~= spec_encode_color(c, with_alpha));
    }
    out
}

/// The `j`-th hexadecimal digit of `c` from the least significant end.
fn nibble_exec(c: u32, j: u32) -> (r: u32)
    requires
        j <= 8,
    ensures
        r == nibble(c, j as nat),
        r < 16,
{
    let mut v = c;
    let mut i: u32 = 0;
    while i < j
        invariant
            i <= j,
            j <= 8,
            v == c as int / pow16(i as nat),
        decreases j - i,
    {
        proof {
            lemma_pow16_mono(0, i as nat);
            vstd::arithmetic::div_mod::lemma_div_denominator(c as int, pow16(i as nat), 16);
            assert(pow16(i as nat) * 16 == 16 * pow16(i as nat)) by (nonlinear_arith);
        }
        v = v / 16;
        i = i + 1;
    }
    v % 16
}

/// Parsing an encoded color with alpha recovers the exact color value.
pub proof fn lemma_color_round_trip_alpha(c: u32)
    ensures
        color_from_digits(spec_encode_color(c, true), 0, 8) == Some(c),
{
    let d = spec_encode_color(c, true);
    lemma_hex_digits_decode(c, d, 8);
}

/// Parsing an encoded opaque color without alpha recovers the exact color
/// value: the six digits give the color channels and the alpha reads full.
pub proof fn lemma_color_round_trip_rgb(c: u32)
    requires
        c / 0x1000000 == 0xFF,
    ensures
        color_from_digits(spec_encode_color(c, false), 0, 6) == Some(c),
{
    let d = spec_encode_color(c, false);
    lemma_hex_digits_decode_partial(c, d, 6, 6);
    assert(pow16(6) == 0x1000000) by {
        reveal_with_fuel(pow16, 7);
    }
    assert(c as int % 0x1000000 == c - 0xFF000000) by {
        vstd::arithmetic::div_mod::lemma_fundamental_div_mod(c as int, 0x1000000);
    }
}

/// Decoding the first `n` of `total` encoded digits yields the value of
/// the corresponding upper nibbles.
proof fn lemma_hex_digits_decode_partial(c: u32, d: Seq<u8>, total: nat, n: nat)
    requires
        n <= total <= 8,
        d.len() == total,
        forall|k: int| 0 <= k < total ==> d[k] == hex_digit_of(nibble(c, (total - 1 - k) as nat)),
    ensures
        hex_num(d, 0, n) == (c as int / pow16((total - n) as nat)) % pow16(n),
    decreases n,
{
    lemma_pow16_mono(0, (total - n) as nat);
    if n == 0 {
        assert(hex_num(d, 0, 0) == 0);
        vstd::arithmetic::div_mod::lemma_mod_self_0(1);
    } else {
        lemma_hex_digits_decode_partial(c, d, total, (n - 1) as nat);
        let q = c as int / pow16((total - n) as nat);
        let q1 = c as int / pow16((total - n + 1) as nat);
        assert(pow16((total - n + 1) as nat) == 16 * pow16((total - n) as nat));
        vstd::arithmetic::div_mod::lemma_div_denominator(c as int, pow16((total - n) as nat), 16);
        assert(pow16((total - n) as nat) * 16 == 16 * pow16((total - n) as nat)) by (nonlinear_arith);
        assert(q1 == q / 16);
        let dig = hex_val(d[n - 1]);
        assert(d[n - 1] == hex_digit_of(nibble(c, (total - n) as nat)));
        assert(hex_val(hex_digit_of(nibble(c, (total - n) as nat))) == nibble(c, (total - n) as nat)) by {
            lemma_nibble_range(c, (total - n) as nat);
        }
        assert(dig == q % 16);
        assert(hex_num(d, 0, n) == (q1 % pow16((n - 1) as nat)) * 16 + q % 16);
        lemma_split_mod(q, (n - 1) as nat);
    }
}

/// A nibble is a single hexadecimal digit value.
proof fn lemma_nibble_range(c: u32, j: nat)
    ensures
        0 <= nibble(c, j) < 16,
        hex_val(hex_digit_of(nibble(c, j))) == nibble(c, j),
{
    lemma_pow16_mono(0, j);
    let q = c as int / pow16(j);
    assert(q >= 0) by {
        vstd::arithmetic::div_mod::lemma_div_pos_is_pos(c as int, pow16(j));
    }
}

/// `(q / 16) % 16^m * 16 + q % 16 == q % 16^(m+1)`.
proof fn lemma_split_mod(q: int, m: nat)
    requires
        q >= 0,
    ensures
        (q / 16) % pow16(m) * 16 + q % 16 == q % pow16((m + 1) as nat),
{
    let p = pow16(m);
    lemma_pow16_mono(0, m);
    vstd::arithmetic::div_mod::lemma_fundamental_div_mod(q, 16);
    vstd::arithmetic::div_mod::lemma_fundamental_div_mod(q / 16, p);
    let a = (q / 16) / p;
    // q == 16 * (p * a + (q/16) % p) + q % 16 == (16 * p) * a + ((q/16) % p * 16 + q % 16)
    assert(16 * (p * a + (q / 16) % p) + q % 16 == (16 * p) * a + ((q / 16) % p * 16 + q % 16))
        by (nonlinear_arith);
    assert(pow16((m + 1) as nat) == 16 * p);
    assert(0 <= (q / 16) % p < p) by {
        vstd::arithmetic::div_mod::lemma_mod_bound(q / 16, p);
    }
    assert(0 <= q % 16 < 16) by {
        vstd::arithmetic::div_mod::lemma_mod_bound(q, 16);
    }
    assert((q / 16) % p * 16 + q % 16 < p * 16) by (nonlinear_arith)
        requires
            (q / 16) % p < p && q % 16 < 16 && (q / 16) % p >= 0,
    ;
    assert(q % (16 * p) == (q / 16) % p * 16 + q % 16) by {
        vstd::arithmetic::div_mod::lemma_fundamental_div_mod_converse(
            q,
            16 * p,
            a,
            (q / 16) % p * 16 + q % 16,
        );
    }
}

/// Decoding all the digits of an eight-digit encoding gives the value back.
proof fn lemma_hex_digits_decode(c: u32, d: Seq<u8>, total: nat)
    requires
        total == 8,
        d.len() == total,
        forall|k: int| 0 <= k < total ==> d[k] == hex_digit_of(nibble(c, (total - 1 - k) as nat)),
    ensures
        hex_num(d, 0, 8) == c,
{
    lemma_hex_digits_decode_partial(c, d, 8, 8);
    assert(pow16(0) == 1);
    assert(pow16(8) == 0x100000000) by {
        reveal_with_fuel(pow16, 9);
    }
    assert(c as int % 0x100000000 == c) by {
        vstd::arithmetic::div_mod::lemma_small_mod(c as nat, 0x100000000);
    }
}

/// ASCII whitespace, as the description format allows around separators.
pub open spec fn is_ws(b: u8) -> bool {
    b == 32 || (9 <= b <= 13)
}

/// First position at or after `i` that does not hold whitespace.
pub open spec fn skip_ws(h: Seq<u8>, i: int) -> int
    decreases h.len() - i,
{
    if 0 <= i < h.len() && is_ws(h[i]) {
        skip_ws(h, i + 1)
    } else {
        i
    }
}

/// Skipping whitespace never runs past the end and lands on the first
/// non-whitespace byte.
pub proof fn lemma_skip_ws(h: Seq<u8>, i: int)
    requires
        0 <= i <= h.len(),
    ensures
        i <= skip_ws(h, i) <= h.len(),
        skip_ws(h, i) < h.len() ==> !is_ws(h[skip_ws(h, i)]),
        forall|k: int| i <= k < skip_ws(h, i) ==> is_ws(h[k]),
    decreases h.len() - i,
{
    if i < h.len() && is_ws(h[i]) {
        lemma_skip_ws(h, i + 1);
    }
}

/// First non-whitespace position at or after `i`.
fn skip_ws_exec(h: &[u8], i: usize) -> (r: usize)
    requires
        i <= h@.len(),
    ensures
        r == skip_ws(h@, i as int),
        i <= r <= h@.len(),
    decreases h@.len() - i,
{
    proof {
        lemma_skip_ws(h@, i as int);
    }
    if i < h.len() {
        let b = h[i];
        if b == 32 || (9 <= b && b <= 13) {
            return skip_ws_exec(h, i + 1);
        }
    }
    i
}

/// ASCII colon.
pub const BYTE_COLON: u8 = 58;

/// ASCII minus sign.
pub const BYTE_MINUS: u8 = 45;

/// ASCII full stop.
pub const BYTE_DOT: u8 = 46;

/// Whether a byte is an ASCII decimal digit.
pub open spec fn is_digit(b: u8) -> bool {
    48 <= b <= 57
}

/// Every byte of the sequence is a decimal digit.
pub open spec fn all_digits(d: Seq<u8>) -> bool {
    forall|k: int| 0 <= k < d.len() ==> is_digit(d[k])
}

/// Value of a sequence of decimal digits, most significant first.
pub open spec fn dec_num(d: Seq<u8>) -> int
    decreases d.len(),
{
    if d.len() == 0 {
        0
    } else {
        dec_num(d.drop_last()) * 10 + (d.last() - 48)
    }
}

/// Whether a byte may appear in the number run after a key: a digit or a
/// minus sign.
pub open spec fn is_int_char(b: u8) -> bool {
    b == BYTE_MINUS || is_digit(b)
}

/// Length of the run of integer characters at `i`.
pub open spec fn int_run_len(h: Seq<u8>, i: int) -> int
    decreases h.len() - i,
{
    if 0 <= i < h.len() && is_int_char(h[i]) {
        1 + int_run_len(h, i + 1)
    } else {
        0
    }
}

/// The 32-bit integer a run of integer characters denotes: an optional
/// leading minus sign followed by one or more digits, within range;
/// anything else — an empty run, a stray sign, an overflow — is nothing.
pub open spec fn spec_int_from_run(d: Seq<u8>) -> Option<i32> {
    if d.len() == 0 {
        None
    } else if d[0] == BYTE_MINUS {
        let ds = d.drop_first();
        if ds.len() > 0 && all_digits(ds) && dec_num(ds) <= 0x80000000 {
            Some((-dec_num(ds)) as i32)
        } else {
            None
        }
    } else {
        if all_digits(d) && dec_num(d) <= 0x7FFFFFFF {
            Some(dec_num(d) as i32)
        } else {
            None
        }
    }
}

/// The integer a key names: after the quoted key, optional whitespace, a
/// colon, optional whitespace, then the run of digits and minus signs.
pub open spec fn spec_parse_int(h: Seq<u8>, key: Seq<u8>) -> Option<i32> {
    match find_from(h, quoted(key), 0) {
        None => None,
        Some(p) => {
            let a = skip_ws(h, p + quoted(key).len());
            if a < h.len() && h[a] == BYTE_COLON {
                let v = skip_ws(h, a + 1);
                spec_int_from_run(h.subrange(v, v + int_run_len(h, v)))
            } else {
                None
            }
        },
    }
}

/// The integer a key names, over a string's bytes.
pub open spec fn spec_parse_int_bytes(content: &str, key: &str) -> Option<i32> {
    spec_parse_int(content.spec_bytes(), key.spec_bytes())
}

proof fn lemma_int_run_nonneg(h: Seq<u8>, i: int)
    ensures
        int_run_len(h, i) >= 0,
        0 <= i <= h.len() ==> i + int_run_len(h, i) <= h.len(),
        forall|k: int| i <= k < i + int_run_len(h, i) ==> is_int_char(h[k]),
        (0 <= i + int_run_len(h, i) < h.len()) ==> !is_int_char(h[i + int_run_len(h, i)]),
    decreases h.len() - i,
{
    if 0 <= i < h.len() && is_int_char(h[i]) {
        lemma_int_run_nonneg(h, i + 1);
    }
}

/// Length of the run of integer characters at `i`.
fn int_run_exec(h: &[u8], i: usize) -> (r: usize)
    requires
        i <= h@.len(),
    ensures
        r == int_run_len(h@, i as int),
        i + r <= h@.len(),
    decreases h@.len() - i,
{
    proof {
        lemma_int_run_nonneg(h@, i as int);
    }
    if i < h.len() {
        let b = h[i];
        if b == BYTE_MINUS || (48 <= b && b <= 57) {
            let rest = int_run_exec(h, i + 1);
            return rest + 1;
        }
    }
    0
}

/// A decimal value only grows as digits are appended.
proof fn lemma_dec_num_nonneg(d: Seq<u8>)
    requires
        all_digits(d),
    ensures
        dec_num(d) >= 0,
    decreases d.len(),
{
    if d.len() > 0 {
        assert(all_digits(d.drop_last())) by {
            assert(forall|k: int| 0 <= k < d.len() - 1 ==> d.drop_last()[k] == d[k]);
        }
        lemma_dec_num_nonneg(d.drop_last());
    }
}

/// Reads the decimal value of `d.subrange(i, i+n)`, reporting any value
/// beyond the cap as the cap sentinel.
fn dec_value_capped(h: &[u8], i: usize, n: usize, cap: u64) -> (r: u64)
    requires
        i + n <= h@.len(),
        cap < 0x8000000000000000,
        forall|k: int| i <= k < i + n ==> is_digit(h@[k]),
    ensures
        dec_num(h@.subrange(i as int, i + n)) <= cap ==> r == dec_num(h@.subrange(i as int, i + n)),
        dec_num(h@.subrange(i as int, i + n)) > cap ==> r > cap,
{
    let hl = h.len();
    let mut acc: u64 = 0;
    let mut k: usize = 0;
    while k < n
        invariant
            k <= n,
            hl == h@.len(),
            i + n <= hl,
            cap < 0x8000000000000000,
            forall|j: int| i <= j < i + n ==> is_digit(h@[j]),
            dec_num(h@.subrange(i as int, i + k)) <= cap ==> acc == dec_num(h@.subrange(i as int, i + k)),
            dec_num(h@.subrange(i as int, i + k)) > cap ==> acc > cap,
            acc <= cap + 9,
        decreases n - k,
    {
        let b = h[i + k];
        let d: u64 = (b - 48) as u64;
        proof {
            let pre = h@.subrange(i as int, i + k);
            let cur = h@.subrange(i as int, i + k + 1);
            assert(cur.drop_last() =~= pre);
            assert(cur.last() == h@[i + k]);
            assert(all_digits(pre));
            lemma_dec_num_nonneg(pre);
            assert(all_digits(cur));
            lemma_dec_num_nonneg(cur);
            if dec_num(pre) > cap {
                assert(dec_num(cur) == dec_num(pre) * 10 + (h@[i + k] - 48));
                assert(dec_num(pre) * 10 >= dec_num(pre)) by (nonlinear_arith)
                    requires
                        dec_num(pre) >= 0,
                ;
            }
        }
        if acc > cap / 10 {
            proof {
                let pre = h@.subrange(i as int, i + k);
                let cur = h@.subrange(i as int, i + k + 1);
                assert(dec_num(cur) == dec_num(pre) * 10 + (cur.last() - 48));
                vstd::arithmetic::div_mod::lemma_fundamental_div_mod(cap as int, 10);
                vstd::arithmetic::div_mod::lemma_mod_bound(cap as int, 10);
                if dec_num(pre) <= cap {
                    assert(dec_num(pre) == acc);
                    assert(dec_num(pre) * 10 >= (cap / 10 + 1) * 10) by (nonlinear_arith)
                        requires
                            dec_num(pre) >= cap / 10 + 1,
                    ;
                    assert((cap / 10 + 1) * 10 == 10 * (cap / 10) + 10);
                } else {
                    assert(dec_num(pre) * 10 >= dec_num(pre)) by (nonlinear_arith)
                        requires
                            dec_num(pre) >= 0,
                    ;
                }
            }
            acc = cap + 1;
        } else {
            proof {
                let pre = h@.subrange(i as int, i + k);
                let cur = h@.subrange(i as int, i + k + 1);
                assert(dec_num(cur) == dec_num(pre) * 10 + (cur.last() - 48));
                vstd::arithmetic::div_mod::lemma_fundamental_div_mod(cap as int, 10);
                vstd::arithmetic::div_mod::lemma_mod_bound(cap as int, 10);
                assert(dec_num(pre) <= cap);
                assert(acc * 10 <= (cap / 10) * 10) by (nonlinear_arith)
                    requires
                        acc <= cap / 10,
                ;
                assert((cap / 10) * 10 == 10 * (cap / 10));
            }
            acc = acc * 10 + d;
        }
        k = k + 1;
    }
    acc
}

/// Parses an integer written `"key": -123` out of a description: an
/// optional leading minus sign and decimal digits, anything else or a
/// value out of 32-bit range giving nothing.
pub fn parse_int(content: &str, key: &str) -> (r: Option<i32>)
    ensures
        r == spec_parse_int_bytes(content, key),
{
    parse_int_in(content.as_bytes(), key.as_bytes())
}

/// `parse_int` over raw bytes.
#[verifier::loop_isolation(false)]
pub fn parse_int_in(h: &[u8], key: &[u8]) -> (r: Option<i32>)
    ensures
        r == spec_parse_int(h@, key@),
{
    let pat = quote_key(key);
    let p = match find_sub(h, pat.as_slice(), 0) {
        Some(p) => p,
        None => {
            return None;
        },
    };
    let hl = h.len();
    proof {
        lemma_find_from_found(h@, pat@, 0);
        assert(p + pat@.len() <= hl);
    }
    let a = skip_ws_exec(h, p + pat.len());
    if !(a < hl && h[a] == BYTE_COLON) {
        return None;
    }
    let v = skip_ws_exec(h, a + 1);
    let run = int_run_exec(h, v);
    let ghost d = h@.subrange(v as int, v + run);
    if run == 0 {
        return None;
    }
    let neg = h[v] == BYTE_MINUS;
    proof {
        assert(d[0] == h@[v as int]);
        assert(d.len() == run);
    }
    let (ds_start, ds_len) = if neg {
        (v + 1, run - 1)
    } else {
        (v, run)
    };
    let ghost ds = h@.subrange(ds_start as int, ds_start + ds_len);
    proof {
        if neg {
            assert(ds =~= d.drop_first());
        } else {
            assert(ds =~= d);
        }
    }
    if ds_len == 0 {
        return None;
    }
    // every byte of the digit part must be a digit; a minus sign inside
    // the run makes the number invalid
    let mut k: usize = 0;
    while k < ds_len
        invariant
            k <= ds_len,
            hl == h@.len(),
            ds_start + ds_len <= hl,
            ds == h@.subrange(ds_start as int, ds_start + ds_len),
            forall|j: int| 0 <= j < k ==> is_digit(ds[j]),
        decreases ds_len - k,
    {
        let b = h[ds_start + k];
        proof {
            assert(ds[k as int] == h@[ds_start + k]);
        }
        if !(48 <= b && b <= 57) {
            proof {
                assert(!all_digits(ds)) by {
                    assert(!is_digit(ds[k as int]));
                }
            }
            return None;
        }
        k = k + 1;
    }
    assert(all_digits(ds)) by {
        assert(forall|j: int| 0 <= j < ds_len ==> is_digit(ds[j]));
    }
    proof {
        assert(forall|j: int| ds_start <= j < ds_start + ds_len ==> #[trigger] h@[j] == ds[j - ds_start]);
    }
    let limit: u64 = if neg { 0x80000000 } else { 0x7FFFFFFF };
    let val = dec_value_capped(h, ds_start, ds_len, limit);
    if val > limit {
        return None;
    }
    proof {
        lemma_dec_num_nonneg(ds);
    }
    if neg {
        Some(-(val as i64) as i32)
    } else {
        Some(val as i32)
    }
}

/// "true" as bytes.
pub open spec fn lit_true() -> Seq<u8> {
    seq![116u8, 114, 117, 101]
}

/// "false" as bytes.
pub open spec fn lit_false() -> Seq<u8> {
    seq![102u8, 97, 108, 115, 101]
}

/// The boolean a key names: after the quoted key, optional whitespace, a
/// colon, optional whitespace, then literally `true` or `false`.
pub open spec fn spec_parse_bool(h: Seq<u8>, key: Seq<u8>) -> Option<bool> {
    match find_from(h, quoted(key), 0) {
        None => None,
        Some(p) => {
            let a = skip_ws(h, p + quoted(key).len());
            if a < h.len() && h[a] == BYTE_COLON {
                let v = skip_ws(h, a + 1);
                if is_match_at(h, lit_true(), v) {
                    Some(true)
                } else if is_match_at(h, lit_false(), v) {
                    Some(false)
                } else {
                    None
                }
            } else {
                None
            }
        },
    }
}

/// The boolean a key names, over a string's bytes.
pub open spec fn spec_parse_bool_bytes(content: &str, key: &str) -> Option<bool> {
    spec_parse_bool(content.spec_bytes(), key.spec_bytes())
}

/// Parses a boolean written `"key": true` or `"key": false`.
pub fn parse_bool(content: &str, key: &str) -> (r: Option<bool>)
    ensures
        r == spec_parse_bool_bytes(content, key),
{
    parse_bool_in(content.as_bytes(), key.as_bytes())
}

/// `parse_bool` over raw bytes.
pub fn parse_bool_in(h: &[u8], key: &[u8]) -> (r: Option<bool>)
    ensures
        r == spec_parse_bool(h@, key@),
{
    let pat = quote_key(key);
    let p = match find_sub(h, pat.as_slice(), 0) {
        Some(p) => p,
        None => {
            return None;
        },
    };
    let hl = h.len();
    proof {
        lemma_find_from_found(h@, pat@, 0);
        assert(p + pat@.len() <= hl);
    }
    let a = skip_ws_exec(h, p + pat.len());
    if !(a < hl && h[a] == BYTE_COLON) {
        return None;
    }
    let v = skip_ws_exec(h, a + 1);
    let word_true: [u8; 4] = [116u8, 114, 117, 101];
    let word_false: [u8; 5] = [102u8, 97, 108, 115, 101];
    proof {
        assert(word_true@ =~= lit_true());
        assert(word_false@ =~= lit_false());
    }
    if hl - v >= 4 && match_at(h, word_true.as_slice(), v) {
        Some(true)
    } else if hl - v >= 5 && match_at(h, word_false.as_slice(), v) {
        Some(false)
    } else {
        proof {
            if is_match_at(h@, lit_true(), v as int) {
                assert(v + 4 <= hl);
            }
            if is_match_at(h@, lit_false(), v as int) {
                assert(v + 5 <= hl);
            }
        }
        None
    }
}

/// One unit in the fixed-point coordinate scale: values carry eight
/// fractional bits.
pub const FX_ONE: i64 = 256;

/// Ten to the power `n`.
pub open spec fn pow10(n: nat) -> int
    decreases n,
{
    if n == 0 {
        1
    } else {
        10 * pow10((n - 1) as nat)
    }
}

/// A run of `n` digits denotes a value below ten to the `n`.
proof fn lemma_dec_num_bound(d: Seq<u8>)
    requires
        all_digits(d),
    ensures
        0 <= dec_num(d) < pow10(d.len()),
    decreases d.len(),
{
    if d.len() == 0 {
    } else {
        assert(all_digits(d.drop_last())) by {
            assert(forall|k: int| 0 <= k < d.len() - 1 ==> d.drop_last()[k] == d[k]);
        }
        lemma_dec_num_bound(d.drop_last());
        assert(dec_num(d.drop_last()) * 10 + 10 <= pow10((d.len() - 1) as nat) * 10) by (nonlinear_arith)
            requires
                dec_num(d.drop_last()) < pow10((d.len() - 1) as nat),
        ;
    }
}

/// Whether a byte may appear in a decimal-number run: a digit, a minus
/// sign, or a decimal point.
pub open spec fn is_float_char(b: u8) -> bool {
    b == BYTE_MINUS || b == BYTE_DOT || is_digit(b)
}

/// Length of the run of decimal-number characters at `i`.
pub open spec fn float_run_len(h: Seq<u8>, i: int) -> int
    decreases h.len() - i,
{
    if 0 <= i < h.len() && is_float_char(h[i]) {
        1 + float_run_len(h, i + 1)
    } else {
        0
    }
}

proof fn lemma_float_run(h: Seq<u8>, i: int)
    ensures
        float_run_len(h, i) >= 0,
        0 <= i <= h.len() ==> i + float_run_len(h, i) <= h.len(),
        forall|k: int| i <= k < i + float_run_len(h, i) ==> is_float_char(h[k]),
    decreases h.len() - i,
{
    if 0 <= i < h.len() && is_float_char(h[i]) {
        lemma_float_run(h, i + 1);
    }
}

/// Length of the run of decimal-number characters at `i`.
fn float_run_exec(h: &[u8], i: usize) -> (r: usize)
    requires
        i <= h@.len(),
    ensures
        r == float_run_len(h@, i as int),
        i + r <= h@.len(),
    decreases h@.len() - i,
{
    proof {
        lemma_float_run(h@, i as int);
    }
    if i < h.len() {
        let b = h[i];
        if b == BYTE_MINUS || b == BYTE_DOT || (48 <= b && b <= 57) {
            let rest = float_run_exec(h, i + 1);
            return rest + 1;
        }
    }
    0
}

/// The fixed-point value a decimal-number run denotes: an optional minus
/// sign, integer digits, and after an optional decimal point fractional
/// digits, of which the first six contribute, rounded toward zero in
/// units of `FX_ONE`.  A malformed run — empty, digitless, a stray sign
/// or second point — and an integer part beyond seven digits denote
/// nothing.
pub open spec fn spec_fixed_from_run(d: Seq<u8>) -> Option<i64> {
    let neg = d.len() > 0 && d[0] == BYTE_MINUS;
    let rest = if neg { d.drop_first() } else { d };
    if rest.len() == 0 {
        None
    } else {
        match find_from(rest, seq![BYTE_DOT], 0) {
            None => {
                if all_digits(rest) && rest.len() <= 7 {
                    Some((if neg { -dec_num(rest) * 256 } else { dec_num(rest) * 256 }) as i64)
                } else {
                    None
                }
            },
            Some(dp) => {
                let ip = rest.take(dp);
                let fp = rest.skip(dp + 1);
                if all_digits(ip) && all_digits(fp) && ip.len() + fp.len() > 0 && ip.len() <= 7 {
                    let ftop = if fp.len() <= 6 { fp } else { fp.take(6) };
                    let v = dec_num(ip) * 256 + dec_num(ftop) * 256 / pow10(ftop.len());
                    Some((if neg { -v } else { v }) as i64)
                } else {
                    None
                }
            },
        }
    }
}

/// The fixed-point number a key names: the first colon after the quoted
/// key introduces the value, read after optional whitespace.
pub open spec fn spec_parse_fixed(h: Seq<u8>, key: Seq<u8>) -> Option<i64> {
    match find_from(h, quoted(key), 0) {
        None => None,
        Some(p) => match find_from(h, seq![BYTE_COLON], p) {
            None => None,
            Some(c) => {
                let v = skip_ws(h, c + 1);
                spec_fixed_from_run(h.subrange(v, v + float_run_len(h, v)))
            },
        },
    }
}

/// The fixed-point number a key names, over a string's bytes.
pub open spec fn spec_parse_fixed_bytes(content: &str, key: &str) -> Option<i64> {
    spec_parse_fixed(content.spec_bytes(), key.spec_bytes())
}

/// Parses a decimal number written `"key": -1.5` out of a description
/// into fixed-point units of `FX_ONE`.
pub fn parse_fixed(content: &str, key: &str) -> (r: Option<i64>)
    ensures
        r == spec_parse_fixed_bytes(content, key),
{
    parse_fixed_in(content.as_bytes(), key.as_bytes())
}

/// `parse_fixed` over raw bytes.
pub fn parse_fixed_in(h: &[u8], key: &[u8]) -> (r: Option<i64>)
    ensures
        r == spec_parse_fixed(h@, key@),
{
    let pat = quote_key(key);
    let p = match find_sub(h, pat.as_slice(), 0) {
        Some(p) => p,
        None => {
            return None;
        },
    };
    let colon_pat: [u8; 1] = [BYTE_COLON];
    proof {
        assert(colon_pat@ =~= seq![BYTE_COLON]);
    }
    let c = match find_sub(h, colon_pat.as_slice(), p) {
        Some(c) => c,
        None => {
            return None;
        },
    };
    let hl = h.len();
    proof {
        lemma_find_from_found(h@, colon_pat@, p as int);
        assert(c < hl);
    }
    parse_fixed_at(h, c + 1)
}

/// The fixed-point number that starts, after optional whitespace, at a
/// position of the text.
pub open spec fn spec_fixed_value_at(h: Seq<u8>, from: int) -> Option<i64> {
    let v = skip_ws(h, from);
    spec_fixed_from_run(h.subrange(v, v + float_run_len(h, v)))
}

/// Reads the fixed-point number that starts, after optional whitespace,
/// at position `from` of the text.
#[verifier::loop_isolation(false)]
#[verifier::rlimit(100)]
pub fn parse_fixed_at(h: &[u8], from: usize) -> (r: Option<i64>)
    requires
        from <= h@.len(),
    ensures
        r == spec_fixed_value_at(h@, from as int),
{
    let v = skip_ws_exec(h, from);
    let run = float_run_exec(h, v);
    let ghost d = h@.subrange(v as int, v + run);
    if run == 0 {
        return None;
    }
    let neg = h[v] == BYTE_MINUS;
    proof {
        assert(d[0] == h@[v as int]);
    }
    let (rest_start, rest_len) = if neg {
        (v + 1, run - 1)
    } else {
        (v, run)
    };
    let ghost rest = h@.subrange(rest_start as int, rest_start + rest_len);
    proof {
        if neg {
            assert(rest =~= d.drop_first());
        } else {
            assert(rest =~= d);
        }
    }
    if rest_len == 0 {
        return None;
    }
    // locate the first decimal point in the run
    let mut dot: Option<usize> = None;
    let mut k: usize = 0;
    while k < rest_len
        invariant
            k <= rest_len,
            dot is None,
            forall|j: int| 0 <= j < k ==> rest[j] != BYTE_DOT,
        decreases rest_len - k,
    {
        proof {
            assert(rest[k as int] == h@[rest_start + k]);
        }
        if h[rest_start + k] == BYTE_DOT {
            dot = Some(k);
            break;
        }
        k = k + 1;
    }
    let ghost dot_pat = seq![BYTE_DOT];
    proof {
        match dot {
            Some(dp) => {
                assert(is_match_at(rest, dot_pat, dp as int)) by {
                    assert(rest.subrange(dp as int, dp + 1) =~= dot_pat);
                }
                assert forall|j: int| 0 <= j < dp implies !is_match_at(rest, dot_pat, j) by {
                    if is_match_at(rest, dot_pat, j) {
                        assert(rest.subrange(j, j + 1)[0] == rest[j]);
                    }
                }
                lemma_find_from_hit(rest, dot_pat, 0, dot.unwrap() as int);
            },
            None => {
                assert forall|j: int| 0 <= j implies !is_match_at(rest, dot_pat, j) by {
                    if is_match_at(rest, dot_pat, j) {
                        assert(rest.subrange(j, j + 1)[0] == rest[j]);
                        assert(j < rest_len);
                    }
                }
                lemma_find_from_miss(rest, dot_pat, 0);
            },
        }
    }
    let (ip_start, ip_len, fp_start, fp_len) = match dot {
        Some(dp) => (rest_start, dp, rest_start + dp + 1, rest_len - dp - 1),
        None => (rest_start, rest_len, rest_start + rest_len, 0),
    };
    let ghost ip = h@.subrange(ip_start as int, ip_start + ip_len);
    let ghost fp = h@.subrange(fp_start as int, fp_start + fp_len);
    proof {
        match dot {
            Some(dp) => {
                assert(ip =~= rest.take(dp as int));
                assert(fp =~= rest.skip(dp + 1));
            },
            None => {
                assert(ip =~= rest);
            },
        }
    }
    // both digit groups must hold digits only
    let mut k2: usize = 0;
    while k2 < ip_len
        invariant
            k2 <= ip_len,
            forall|j: int| 0 <= j < k2 ==> is_digit(ip[j]),
        decreases ip_len - k2,
    {
        proof {
            assert(ip[k2 as int] == h@[ip_start + k2]);
        }
        let b = h[ip_start + k2];
        if !(48 <= b && b <= 57) {
            proof {
                assert(!all_digits(ip)) by {
                    assert(!is_digit(ip[k2 as int]));
                }
            }
            return None;
        }
        k2 = k2 + 1;
    }
    assert(all_digits(ip));
    let mut k3: usize = 0;
    while k3 < fp_len
        invariant
            k3 <= fp_len,
            forall|j: int| 0 <= j < k3 ==> is_digit(fp[j]),
        decreases fp_len - k3,
    {
        proof {
            assert(fp[k3 as int] == h@[fp_start + k3]);
        }
        let b = h[fp_start + k3];
        if !(48 <= b && b <= 57) {
            proof {
                assert(!all_digits(fp)) by {
                    assert(!is_digit(fp[k3 as int]));
                }
            }
            return None;
        }
        k3 = k3 + 1;
    }
    assert(all_digits(fp));
    if ip_len + fp_len == 0 {
        return None;
    }
    if ip_len > 7 {
        return None;
    }
    proof {
        assert forall|j: int| ip_start <= j < ip_start + ip_len implies is_digit(h@[j]) by {
            assert(ip[j - ip_start] == h@[j]);
        }
    }
    let ip_val = dec_value_capped(h, ip_start, ip_len, 10000000);
    proof {
        lemma_dec_num_bound(ip);
        lemma_pow10_le(ip_len as nat, 7);
    }
    let ftop_len: usize = if fp_len <= 6 { fp_len } else { 6 };
    let ghost ftop = if fp.len() <= 6 { fp } else { fp.take(6) };
    proof {
        assert(ftop =~= h@.subrange(fp_start as int, fp_start + ftop_len));
        assert(all_digits(ftop)) by {
            assert(forall|j: int| 0 <= j < ftop.len() ==> ftop[j] == fp[j]);
        }
    }
    proof {
        assert forall|j: int| fp_start <= j < fp_start + ftop_len implies is_digit(h@[j]) by {
            assert(ftop[j - fp_start] == h@[j]);
        }
    }
    let ftop_val = dec_value_capped(h, fp_start, ftop_len, 1000000);
    proof {
        lemma_dec_num_bound(ftop);
        lemma_pow10_le(ftop_len as nat, 6);
    }
    let p10 = pow10_exec(ftop_len);
    proof {
        assert(pow10(7) == 10000000) by {
            reveal_with_fuel(pow10, 8);
        }
        assert(pow10(6) == 1000000) by {
            reveal_with_fuel(pow10, 7);
        }
        assert(ip_val == dec_num(ip) && ip_val < 10000000);
        assert(ftop_val == dec_num(ftop) && ftop_val < 1000000);
        vstd::arithmetic::div_mod::lemma_div_nonincreasing((ftop_val * 256) as int, p10 as int);
    }
    let frac = ftop_val * 256 / p10;
    let v_abs: i64 = (ip_val as i64) * 256 + (frac as i64);
    proof {
        assert(dec_num(ftop) * 256 / pow10(ftop.len()) == frac);
    }
    if neg {
        Some(-v_abs)
    } else {
        Some(v_abs)
    }
}

/// `pow10` grows with its exponent.
proof fn lemma_pow10_le(a: nat, b: nat)
    requires
        a <= b,
    ensures
        1 <= pow10(a) <= pow10(b),
    decreases b,
{
    if a == 0 {
        if b > 0 {
            lemma_pow10_le(0, (b - 1) as nat);
        }
    } else {
        lemma_pow10_le((a - 1) as nat, (b - 1) as nat);
        assert(10 * pow10((a - 1) as nat) <= 10 * pow10((b - 1) as nat)) by (nonlinear_arith)
            requires
                pow10((a - 1) as nat) <= pow10((b - 1) as nat),
        ;
    }
}

/// Ten to a small power.
fn pow10_exec(n: usize) -> (r: u64)
    requires
        n <= 6,
    ensures
        r == pow10(n as nat),
        r >= 1,
{
    let mut r: u64 = 1;
    let mut i: usize = 0;
    while i < n
        invariant
            i <= n,
            n <= 6,
            r == pow10(i as nat),
            r <= 1000000,
        decreases n - i,
    {
        proof {
            lemma_pow10_le((i + 1) as nat, 6);
            assert(pow10(6) == 1000000) by {
                reveal_with_fuel(pow10, 7);
            }
        }
        r = r * 10;
        i = i + 1;
    }
    proof {
        lemma_pow10_le(n as nat, 6);
    }
    r
}

} // verus!
