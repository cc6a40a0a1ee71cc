//! Text primitives on strings, each stated over the characters (or the UTF-8
//! bytes) of its arguments: whitespace and trimming, decimal numbers, substring
//! search and the byte order that `str` comparison uses.
use vstd::prelude::*;
use vstd::string::StringSliceAdditionalSpecFns;
use vstd::utf8::*;

verus! {

// ───────────────────────────── characters ─────────────────────────────

/// The characters of `s`, in order.
pub fn chars_of(s: &str) -> (r: Vec<char>)
    ensures
        r@ == s@,
{
    let mut r: Vec<char> = Vec::new();
    for c in it: s.chars()
        invariant
            r@ == it.seq().take(it.index() as int),
    {
        r.push(c);
    }
    r
}

/// Appends one character to a string, by `String::push`; the contract
/// claims that the string afterwards holds its old characters followed by `c`,
/// as that function's documentation says.
#[verifier::external_body]
pub(crate) fn push_char(s: &mut String, c: char)
    ensures
        final(s)@ == old(s)@.push(c),
{
    s.push(c);
}

/// Appends a string slice to a string.
pub fn push_str(s: &mut String, t: &str)
    ensures
        final(s)@ == old(s)@ + t@,
{
    s.append(t);
}

/// A new string with the characters of `t`.
pub fn owned(t: &str) -> (r: String)
    ensures
        r@ == t@,
{
    t.to_owned()
}

/// Whether `c` has the Unicode `White_Space` property, the test that
/// `char::is_whitespace`, `str::trim` and `str::split_whitespace` apply.
pub open spec fn is_ws(c: char) -> bool {
    let u = c as u32;
    ||| 0x09 <= u <= 0x0D
    ||| u == 0x20
    ||| u == 0x85
    ||| u == 0xA0
    ||| u == 0x1680
    ||| 0x2000 <= u <= 0x200A
    ||| u == 0x2028
    ||| u == 0x2029
    ||| u == 0x202F
    ||| u == 0x205F
    ||| u == 0x3000
}

/// Whether `c` is a whitespace character.
pub fn is_whitespace(c: char) -> (b: bool)
    ensures
        b == is_ws(c),
{
    let u = c as u32;
    (0x09 <= u && u <= 0x0D) || u == 0x20 || u == 0x85 || u == 0xA0 || u == 0x1680 || (0x2000
        <= u && u <= 0x200A) || u == 0x2028 || u == 0x2029 || u == 0x202F || u == 0x205F || u
        == 0x3000
}

// ───────────────────────────── trimming ─────────────────────────────

/// `s` without its leading whitespace.
pub open spec fn trim_start(s: Seq<char>) -> Seq<char>
    decreases s.len(),
{
    if s.len() > 0 && is_ws(s[0]) {
        trim_start(s.drop_first())
    } else {
        s
    }
}

/// `s` without its trailing whitespace.
pub open spec fn trim_end(s: Seq<char>) -> Seq<char>
    decreases s.len(),
{
    if s.len() > 0 && is_ws(s.last()) {
        trim_end(s.drop_last())
    } else {
        s
    }
}

/// `s` without leading and trailing whitespace, as `str::trim` gives it.
pub open spec fn trimmed(s: Seq<char>) -> Seq<char> {
    trim_end(trim_start(s))
}

/// The string `s` without leading and trailing whitespace.
pub fn trim(s: &str) -> (r: String)
    ensures
        r@ == trimmed(s@),
{
    let cs = chars_of(s);
    let n = cs.len();
    let mut i: usize = 0;
    assert(cs@.skip(0) =~= cs@);
    while i < n && is_whitespace(cs[i])
        invariant
            0 <= i <= n,
            n == cs@.len(),
            trim_start(cs@) == trim_start(cs@.skip(i as int)),
        decreases n - i,
    {
        assert(cs@.skip(i as int).drop_first() =~= cs@.skip(i + 1));
        i = i + 1;
    }
    assert(trim_start(cs@) =~= cs@.skip(i as int)) by {
        if i == n {
            assert(cs@.skip(i as int) =~= Seq::<char>::empty());
        }
    }
    let mut j: usize = n;
    assert(cs@.skip(i as int) =~= cs@.subrange(i as int, n as int));
    while j > i && is_whitespace(cs[j - 1])
        invariant
            i <= j <= n,
            n == cs@.len(),
            trim_end(cs@.skip(i as int)) == trim_end(cs@.subrange(i as int, j as int)),
        decreases j,
    {
        assert(cs@.subrange(i as int, j as int).drop_last() =~= cs@.subrange(
            i as int,
            j - 1,
        ));
        j = j - 1;
    }
    assert(trim_end(cs@.subrange(i as int, j as int)) =~= cs@.subrange(i as int, j as int));
    owned(s.substring_char(i, j))
}

/// Trimming leaves nothing to trim: the result neither starts nor ends with
/// whitespace, and trimming it again changes nothing.
pub proof fn lemma_trimmed_edges(s: Seq<char>)
    ensures
        trimmed(s).len() > 0 ==> !is_ws(trimmed(s)[0]) && !is_ws(trimmed(s).last()),
        trimmed(trimmed(s)) == trimmed(s),
    decreases s.len(),
{
    lemma_trim_start_shape(s);
    lemma_trim_end_shape(trim_start(s));
    let t = trim_start(s);
    let u = trim_end(t);
    if u.len() > 0 {
        // u is a prefix of t, and t does not start with whitespace
        assert(u[0] == t[0]);
        assert(!is_ws(u[0]));
        assert(trim_start(u) == u);
        assert(trim_end(u) == u);
    } else {
        assert(trim_start(u) == u);
        assert(trim_end(u) == u);
    }
}

/// `trim_start(s)` is a suffix of `s` that is empty or starts with a non-space.
proof fn lemma_trim_start_shape(s: Seq<char>)
    ensures
        trim_start(s).len() <= s.len(),
        trim_start(s) =~= s.skip(s.len() - trim_start(s).len()),
        trim_start(s).len() > 0 ==> !is_ws(trim_start(s)[0]),
    decreases s.len(),
{
    if s.len() > 0 && is_ws(s[0]) {
        lemma_trim_start_shape(s.drop_first());
    }
}

/// `trim_end(s)` is a prefix of `s` that is empty or ends with a non-space.
proof fn lemma_trim_end_shape(s: Seq<char>)
    ensures
        trim_end(s).len() <= s.len(),
        trim_end(s) =~= s.take(trim_end(s).len() as int),
        trim_end(s).len() > 0 ==> !is_ws(trim_end(s).last()),
    decreases s.len(),
{
    if s.len() > 0 && is_ws(s.last()) {
        lemma_trim_end_shape(s.drop_last());
    }
}

// ───────────────────────────── decimal numbers ─────────────────────────────

/// The character of the decimal digit `d` (for `0 <= d < 10`).
pub open spec fn digit_char(d: int) -> char {
    (48 + d) as char
}

/// The character of the decimal digit `d`.
pub fn digit(d: u8) -> (c: char)
    requires
        d < 10,
    ensures
        c == digit_char(d as int),
{
    (48u8 + d) as char
}

/// The decimal notation of `n`, without sign or leading zeros, as `u64`'s
/// `to_string` writes it.
pub open spec fn decimal(n: nat) -> Seq<char>
    decreases n,
{
    if n < 10 {
        seq![digit_char(n as int)]
    } else {
        decimal(n / 10).push(digit_char((n % 10) as int))
    }
}

/// Appends the decimal notation of `n` to `s`.
pub fn push_decimal(s: &mut String, n: u64)
    ensures
        final(s)@ == old(s)@ + decimal(n as nat),
    decreases n,
{
    let ghost before = s@;
    if n >= 10 {
        push_decimal(s, n / 10);
    }
    push_char(s, digit((n % 10) as u8));
    assert(s@ =~= before + decimal(n as nat));
}

/// The decimal notation of `n`.
pub fn decimal_string(n: u64) -> (r: String)
    ensures
        r@ == decimal(n as nat),
{
    let mut r = String::new();
    push_decimal(&mut r, n);
    assert(r@ =~= decimal(n as nat));
    r
}

/// Whether `c` is an ASCII decimal digit.
pub open spec fn is_digit(c: char) -> bool {
    48 <= (c as u32) <= 57
}

/// The value of the digit character `c`.
pub open spec fn digit_value(c: char) -> int {
    (c as u32) - 48
}

/// The value of a sequence of decimal digits, most significant first.
pub open spec fn digits_value(s: Seq<char>) -> int
    decreases s.len(),
{
    if s.len() == 0 {
        0
    } else {
        digits_value(s.drop_last()) * 10 + digit_value(s.last())
    }
}

/// Whether every character of `s` is a decimal digit.
pub open spec fn all_digits(s: Seq<char>) -> bool {
    forall|i: int| 0 <= i < s.len() ==> #[trigger] is_digit(s[i])
}

/// `s` without one leading `+`, if it has one.
pub open spec fn unsigned_digits(s: Seq<char>) -> Seq<char> {
    if s.len() > 0 && s[0] == '+' {
        s.drop_first()
    } else {
        s
    }
}

/// What `str::parse::<u32>` gives for `s`: the value when `s` is an optional
/// `+` followed by at least one decimal digit and the value fits in `u32`,
/// and no value otherwise.
pub open spec fn parse_u32_spec(s: Seq<char>) -> Option<u32> {
    let d = unsigned_digits(s);
    if d.len() > 0 && all_digits(d) && digits_value(d) <= u32::MAX {
        Some(digits_value(d) as u32)
    } else {
        None
    }
}

proof fn lemma_digits_value_nonneg(s: Seq<char>)
    requires
        all_digits(s),
    ensures
        digits_value(s) >= 0,
    decreases s.len(),
{
    if s.len() > 0 {
        assert(all_digits(s.drop_last())) by {
            assert forall|i: int| 0 <= i < s.drop_last().len() implies #[trigger] is_digit(
                s.drop_last()[i],
            ) by {
                assert(is_digit(s[i]));
            }
        }
        lemma_digits_value_nonneg(s.drop_last());
        assert(is_digit(s[s.len() - 1]));
    }
}

/// A digit sequence is worth at least as much as any of its prefixes.
proof fn lemma_digits_value_prefix(s: Seq<char>, k: int)
    requires
        all_digits(s),
        0 <= k <= s.len(),
    ensures
        digits_value(s.take(k)) <= digits_value(s),
    decreases s.len(),
{
    if k < s.len() {
        let p = s.drop_last();
        assert(all_digits(p)) by {
            assert forall|i: int| 0 <= i < p.len() implies #[trigger] is_digit(p[i]) by {
                assert(is_digit(s[i]));
            }
        }
        lemma_digits_value_prefix(p, k);
        assert(p.take(k) =~= s.take(k));
        lemma_digits_value_nonneg(p);
        assert(is_digit(s[s.len() - 1]));
        assert(digits_value(p) <= digits_value(p) * 10) by (nonlinear_arith)
            requires
                digits_value(p) >= 0,
        ;
    } else {
        assert(s.take(k) =~= s);
    }
}

/// Parses a decimal `u32` as `str::parse::<u32>` does.
pub fn parse_u32(s: &str) -> (r: Option<u32>)
    ensures
        r == parse_u32_spec(s@),
{
    let cs = chars_of(s);
    let n = cs.len();
    let start: usize = if n > 0 && cs[0] == '+' {
        1
    } else {
        0
    };
    let ghost d = unsigned_digits(cs@);
    assert(d =~= cs@.skip(start as int));
    if start == n {
        return None;
    }
    let mut acc: u64 = 0;
    let mut i: usize = start;
    assert(cs@.subrange(start as int, start as int) =~= Seq::<char>::empty());
    while i < n
        invariant
            start <= i <= n,
            n == cs@.len(),
            cs@ == s@,
            d == unsigned_digits(s@),
            d =~= cs@.skip(start as int),
            d.len() > 0,
            all_digits(cs@.subrange(start as int, i as int)),
            acc as int == digits_value(cs@.subrange(start as int, i as int)),
            acc <= u32::MAX,
        decreases n - i,
    {
        let c = cs[i];
        let u = c as u32;
        if u < 48 || u > 57 {
            assert(!is_digit(d[i - start]));
            assert(!all_digits(d));
            assert(parse_u32_spec(s@) is None);
            return None;
        }
        let ghost prev = cs@.subrange(start as int, i as int);
        let ghost next = cs@.subrange(start as int, i + 1);
        assert(next.drop_last() =~= prev);
        assert(all_digits(next)) by {
            assert forall|k: int| 0 <= k < next.len() implies #[trigger] is_digit(next[k]) by {
                if k < prev.len() {
                    assert(next[k] == prev[k]);
                }
            }
        }
        acc = acc * 10 + (u - 48) as u64;
        assert(acc as int == digits_value(next));
        if acc > u32::MAX as u64 {
            proof {
                if all_digits(d) {
                    assert(d.take(next.len() as int) =~= next);
                    lemma_digits_value_prefix(d, next.len() as int);
                }
                assert(parse_u32_spec(s@) is None);
            }
            return None;
        }
        i = i + 1;
    }
    assert(cs@.subrange(start as int, n as int) =~= d);
    Some(acc as u32)
}

/// Reading back the decimal notation of a number gives the number.
pub proof fn lemma_parse_decimal(n: u32)
    ensures
        parse_u32_spec(decimal(n as nat)) == Some(n),
{
    lemma_decimal_digits(n as nat);
    let s = decimal(n as nat);
    assert(is_digit(s[0]));
    assert(s[0] != '+');
    assert(unsigned_digits(s) == s);
}

/// The decimal notation of `n` is a non-empty digit sequence worth `n`.
pub proof fn lemma_decimal_digits(n: nat)
    ensures
        decimal(n).len() > 0,
        all_digits(decimal(n)),
        digits_value(decimal(n)) == n,
    decreases n,
{
    assert(digit_char((n % 10) as int) as u32 == 48 + n % 10);
    if n < 10 {
        let s = decimal(n);
        assert(s.drop_last() =~= Seq::<char>::empty());
        assert(digits_value(s.drop_last()) == 0);
        assert(n % 10 == n);
        assert(digits_value(s) == digits_value(s.drop_last()) * 10 + digit_value(s.last()));
        assert(is_digit(s[0]));
    } else {
        lemma_decimal_digits(n / 10);
        let s = decimal(n);
        let p = decimal(n / 10);
        assert(s.drop_last() =~= p);
        assert(s.last() == digit_char((n % 10) as int));
        assert(digits_value(s) == digits_value(p) * 10 + (n % 10));
        assert((n / 10) * 10 + n % 10 == n);
        assert forall|i: int| 0 <= i < s.len() implies #[trigger] is_digit(s[i]) by {
            if i < p.len() {
                assert(s[i] == p[i]);
                assert(is_digit(p[i]));
            }
        }
    }
}

// ───────────────────────────── substrings ─────────────────────────────

/// Whether `needle` occurs in `hay` starting at position `i`.
pub open spec fn occurs_at<A>(hay: Seq<A>, needle: Seq<A>, i: int) -> bool {
    0 <= i && i + needle.len() <= hay.len() && hay.subrange(i, i + needle.len()) == needle
}

/// Whether `needle` occurs anywhere in `hay` (an empty needle always does).
pub open spec fn contains_seq<A>(hay: Seq<A>, needle: Seq<A>) -> bool {
    exists|i: int| occurs_at(hay, needle, i)
}

/// Whether the bytes of `needle` occur in those of `hay`, as `str::contains`
/// decides for a string pattern.
pub fn str_contains(hay: &str, needle: &str) -> (b: bool)
    ensures
        b == contains_seq(encode_utf8(hay@), encode_utf8(needle@)),
{
    let h = hay.as_bytes();
    let p = needle.as_bytes();
    let hl = h.len();
    let pl = p.len();
    if pl > hl {
        assert forall|i: int| !occurs_at(h@, p@, i) by {}
        return false;
    }
    let mut i: usize = 0;
    while i <= hl - pl
        invariant
            hl == h@.len(),
            pl == p@.len(),
            pl <= hl,
            h@ == encode_utf8(hay@),
            p@ == encode_utf8(needle@),
            i <= hl - pl + 1,
            forall|k: int| 0 <= k < i ==> !occurs_at(h@, p@, k),
        decreases hl - pl + 1 - i,
    {
        let mut j: usize = 0;
        while j < pl && h[i + j] == p[j]
            invariant
                hl == h@.len(),
                pl == p@.len(),
                i + pl <= hl,
                j <= pl,
                forall|k: int| 0 <= k < j ==> h@[i + k] == p@[k],
            decreases pl - j,
        {
            j = j + 1;
        }
        if j == pl {
            assert(h@.subrange(i as int, i + pl) =~= p@);
            assert(occurs_at(h@, p@, i as int));
            assert(contains_seq(h@, p@));
            return true;
        }
        assert(!occurs_at(h@, p@, i as int)) by {
            if h@.subrange(i as int, i + pl) == p@ {
                assert(h@.subrange(i as int, i + pl)[j as int] == h@[i + j]);
            }
        }
        i = i + 1;
    }
    assert forall|k: int| !occurs_at(h@, p@, k) by {
        if 0 <= k && k < i {
        }
    }
    false
}

// ───────────────────────────── byte order ─────────────────────────────

/// The three outcomes of comparing two values.
#[derive(PartialEq, Eq, Structural, Clone, Copy, Debug)]
pub enum Order {
    Less,
    Equal,
    Greater,
}

/// Lexicographic order on byte sequences, the order of `str` comparison.
pub open spec fn bytes_le(a: Seq<u8>, b: Seq<u8>) -> bool
    decreases a.len(),
{
    if a.len() == 0 {
        true
    } else if b.len() == 0 {
        false
    } else if a[0] == b[0] {
        bytes_le(a.drop_first(), b.drop_first())
    } else {
        a[0] < b[0]
    }
}

/// Strict lexicographic order on byte sequences.
pub open spec fn bytes_lt(a: Seq<u8>, b: Seq<u8>) -> bool {
    bytes_le(a, b) && a != b
}

/// Of two byte sequences, one comes first or they are equal.
pub proof fn lemma_bytes_le_total(a: Seq<u8>, b: Seq<u8>)
    ensures
        bytes_le(a, b) || bytes_le(b, a),
        bytes_le(a, b) && bytes_le(b, a) ==> a == b,
    decreases a.len(),
{
    if a.len() > 0 && b.len() > 0 && a[0] == b[0] {
        lemma_bytes_le_total(a.drop_first(), b.drop_first());
        if bytes_le(a, b) && bytes_le(b, a) {
            assert(a =~= seq![a[0]] + a.drop_first());
            assert(b =~= seq![b[0]] + b.drop_first());
        }
    } else if a.len() == 0 && b.len() == 0 {
        assert(a =~= b);
    }
}

/// The byte order is transitive.
pub proof fn lemma_bytes_le_transitive(a: Seq<u8>, b: Seq<u8>, c: Seq<u8>)
    requires
        bytes_le(a, b),
        bytes_le(b, c),
    ensures
        bytes_le(a, c),
    decreases a.len(),
{
    if a.len() > 0 && b.len() > 0 && c.len() > 0 && a[0] == b[0] && b[0] == c[0] {
        lemma_bytes_le_transitive(a.drop_first(), b.drop_first(), c.drop_first());
    }
}

/// Compares two strings by their UTF-8 bytes, as `str`'s `cmp` does.
pub fn compare_str(a: &str, b: &str) -> (o: Order)
    ensures
        (o == Order::Equal) == (encode_utf8(a@) == encode_utf8(b@)),
        (o == Order::Less) == bytes_lt(encode_utf8(a@), encode_utf8(b@)),
        (o == Order::Greater) == !bytes_le(encode_utf8(a@), encode_utf8(b@)),
{
    let x = a.as_bytes();
    let y = b.as_bytes();
    let xl = x.len();
    let yl = y.len();
    let mut i: usize = 0;
    assert(x@.skip(0) =~= x@);
    assert(y@.skip(0) =~= y@);
    while i < xl && i < yl && x[i] == y[i]
        invariant
            xl == x@.len(),
            yl == y@.len(),
            i <= xl,
            i <= yl,
            x@.take(i as int) =~= y@.take(i as int),
            bytes_le(x@, y@) == bytes_le(x@.skip(i as int), y@.skip(i as int)),
            bytes_le(y@, x@) == bytes_le(y@.skip(i as int), x@.skip(i as int)),
        decreases xl - i,
    {
        assert(x@.skip(i as int).drop_first() =~= x@.skip(i + 1));
        assert(y@.skip(i as int).drop_first() =~= y@.skip(i + 1));
        assert(x@.take(i + 1) =~= x@.take(i as int).push(x@[i as int]));
        assert(y@.take(i + 1) =~= y@.take(i as int).push(y@[i as int]));
        i = i + 1;
    }
    proof {
        lemma_bytes_le_total(x@, y@);
    }
    if i == xl && i == yl {
        assert(x@ =~= x@.take(i as int));
        assert(y@ =~= y@.take(i as int));
        Order::Equal
    } else if i == xl {
        assert(x@.skip(i as int) =~= Seq::<u8>::empty());
        assert(x@.len() != y@.len());
        Order::Less
    } else if i == yl {
        assert(y@.skip(i as int) =~= Seq::<u8>::empty());
        assert(x@.len() != y@.len());
        Order::Greater
    } else if x[i] < y[i] {
        assert(x@.skip(i as int)[0] != y@.skip(i as int)[0]);
        Order::Less
    } else {
        assert(x@.skip(i as int)[0] != y@.skip(i as int)[0]);
        Order::Greater
    }
}

// ───────────────────────────── case ─────────────────────────────

/// What `str::to_lowercase` gives for a string with the characters `s`: a
/// function of the characters alone (the Unicode lowercase mapping, with no
/// locale), of which nothing more is stated here.
pub uninterp spec fn lowercase(s: Seq<char>) -> Seq<char>;

/// The lowercase form of `s`, by `str::to_lowercase`; the contract claims only
/// that the result's characters are `lowercase` of those of `s`.
#[verifier::external_body]
pub(crate) fn to_lowercase(s: &str) -> (r: String)
    ensures
        r@ == lowercase(s@),
{
    s.to_lowercase()
}

} // verus!

verus! {

/// Whether two strings have the same characters, as `==` on `str` decides.
pub fn str_eq(a: &str, b: &str) -> (r: bool)
    ensures
        r == (a@ == b@),
{
    let o = compare_str(a, b);
    proof {
        encode_utf8_decode_utf8(a@);
        encode_utf8_decode_utf8(b@);
    }
    matches!(o, Order::Equal)
}

} // verus!

verus! {

// ───────────────────────────── words ─────────────────────────────

/// The words of `s`, as `str::split_whitespace` gives them: its maximal runs
/// of non-whitespace characters, in order. A non-space after a non-space
/// extends the last word; a non-space after a space (or at the start) begins
/// a new one.
pub open spec fn words(s: Seq<char>) -> Seq<Seq<char>>
    decreases s.len(),
{
    if s.len() == 0 {
        Seq::empty()
    } else {
        let p = s.drop_last();
        let c = s.last();
        if is_ws(c) {
            words(p)
        } else if p.len() > 0 && !is_ws(p.last()) {
            words(p).update(words(p).len() - 1, words(p).last().push(c))
        } else {
            words(p).push(seq![c])
        }
    }
}

/// A text that ends in a non-space has a word.
proof fn lemma_words_nonempty(s: Seq<char>)
    requires
        s.len() > 0,
        !is_ws(s.last()),
    ensures
        words(s).len() > 0,
    decreases s.len(),
{
    let p = s.drop_last();
    if p.len() > 0 && !is_ws(p.last()) {
        lemma_words_nonempty(p);
    }
}

/// The views of a list of strings.
pub open spec fn string_views(v: Seq<String>) -> Seq<Seq<char>> {
    v.map_values(|s: String| s@)
}

/// The words of `s`.
pub fn words_of(s: &str) -> (r: Vec<String>)
    ensures
        string_views(r@) == words(s@),
{
    let cs = chars_of(s);
    let n = cs.len();
    let mut done: Vec<String> = Vec::new();
    let mut cur = String::new();
    let mut i: usize = 0;
    while i < n
        invariant
            n == cs@.len(),
            i <= n,
            cur@.len() > 0 ==> words(cs@.take(i as int)) == string_views(done@).push(cur@) && i > 0
                && !is_ws(cs@[i - 1]),
            cur@.len() == 0 ==> words(cs@.take(i as int)) == string_views(done@) && (i == 0 || is_ws(
                cs@[i - 1],
            )),
        decreases n - i,
    {
        let c = cs[i];
        let ghost t = cs@.take(i + 1);
        assert(t.drop_last() =~= cs@.take(i as int));
        assert(t.last() == c);
        if is_whitespace(c) {
            if cur.as_str().unicode_len() > 0 {
                let ghost before = done@;
                let w = cur;
                done.push(w);
                assert(string_views(done@) =~= string_views(before).push(w@));
                cur = String::new();
            }
        } else {
            let ghost before = cur@;
            push_char(&mut cur, c);
            proof {
                if before.len() > 0 {
                    let w = words(cs@.take(i as int));
                    lemma_words_nonempty(cs@.take(i as int));
                    assert(w.len() > 0);
                    assert(w.update(w.len() - 1, w.last().push(c)) =~= string_views(done@).push(
                        cur@,
                    ));
                } else {
                    assert(cur@ =~= seq![c]);
                }
            }
        }
        i = i + 1;
    }
    assert(cs@.take(n as int) =~= cs@);
    if cur.as_str().unicode_len() > 0 {
        let ghost before = done@;
        let w = cur;
        done.push(w);
        assert(string_views(done@) =~= string_views(before).push(w@));
    }
    done
}

} // verus!

verus! {

/// Law: every word is non-empty and holds no whitespace, and the words hold
/// exactly the non-whitespace characters of `s`, in order.
pub proof fn lemma_words_shape(s: Seq<char>)
    ensures
        forall|k: int| 0 <= k < words(s).len() ==> #[trigger] words(s)[k].len() > 0,
        forall|k: int, j: int|
            0 <= k < words(s).len() && 0 <= j < words(s)[k].len() ==> !is_ws(
                #[trigger] words(s)[k][j],
            ),
        words(s).flatten() == s.filter(|c: char| !is_ws(c)),
    decreases s.len(),
{
    if s.len() > 0 {
        let p = s.drop_last();
        let c = s.last();
        lemma_words_shape(p);
        let w = words(p);
        assert(s =~= p.push(c));
        p.lemma_filter_push(c, |c: char| !is_ws(c));
        if is_ws(c) {
        } else if p.len() > 0 && !is_ws(p.last()) {
            lemma_words_nonempty(p);
            let u = w.update(w.len() - 1, w.last().push(c));
            assert forall|k: int, j: int| 0 <= k < u.len() && 0 <= j < u[k].len() implies !is_ws(
                #[trigger] u[k][j],
            ) by {
                if k < w.len() - 1 {
                    assert(u[k] == w[k]);
                } else if j < w.last().len() {
                    assert(u[k][j] == w[k][j]);
                }
            }
            assert(u =~= w.drop_last().push(w.last().push(c)));
            assert(w =~= w.drop_last().push(w.last()));
            w.drop_last().lemma_flatten_push(w.last());
            w.drop_last().lemma_flatten_push(w.last().push(c));
            assert(u.flatten() =~= w.flatten().push(c));
        } else {
            let u = w.push(seq![c]);
            assert forall|k: int, j: int| 0 <= k < u.len() && 0 <= j < u[k].len() implies !is_ws(
                #[trigger] u[k][j],
            ) by {
                if k < w.len() {
                    assert(u[k] == w[k]);
                }
            }
            w.lemma_flatten_push(seq![c]);
            assert(u.flatten() =~= w.flatten().push(c));
        }
    }
}

} // verus!
