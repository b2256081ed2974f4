//! Text primitives the wire grammars are written with: Unicode white space and trimming,
//! searching for a character, splitting, decimal numbers.
use vstd::prelude::*;
use vstd::utf8::{decode_utf8, valid_utf8};

verus! {

broadcast use vstd::string::group_string_axioms;

/// The characters of a string slice, in order.
pub fn chars_of(s: &str) -> (res: Vec<char>)
    ensures
        res@ == s@,
{
    let mut out: Vec<char> = Vec::new();
    for c in it: s.chars()
        invariant
            it.seq() == s@,
            out@ == it.seq().take(it.index() as int),
    {
        out.push(c);
    }
    out
}

/// Appends one character to a string (`String::push`).
#[verifier::external_body]
pub(crate) fn push_char(s: &mut String, c: char)
    ensures
        final(s)@ == old(s)@.push(c),
{
    s.push(c)
}

/// The string of the characters `v[from..to]`.
pub fn string_of(v: &Vec<char>, from: usize, to: usize) -> (res: String)
    requires
        from <= to <= v@.len(),
    ensures
        res@ == v@.subrange(from as int, to as int),
{
    let mut s = String::new();
    let mut i = from;
    while i < to
        invariant
            from <= i <= to <= v@.len(),
            s@ == v@.subrange(from as int, i as int),
        decreases to - i,
    {
        push_char(&mut s, v[i]);
        i = i + 1;
        assert(s@ =~= v@.subrange(from as int, i as int));
    }
    s
}

/// Whether `c` has the Unicode `White_Space` property (`char::is_whitespace`).
pub open spec fn is_space(c: char) -> bool {
    let u = c as u32;
    (9 <= u <= 13) || u == 32 || u == 0x85 || u == 0xA0 || u == 0x1680 || (0x2000 <= u <= 0x200A)
        || u == 0x2028 || u == 0x2029 || u == 0x202F || u == 0x205F || u == 0x3000
}

/// Whether `c` is white space (see `is_space`).
pub fn space(c: char) -> (res: bool)
    ensures
        res == is_space(c),
{
    let u = c as u32;
    (9 <= u && u <= 13) || u == 32 || u == 0x85 || u == 0xA0 || u == 0x1680 || (0x2000 <= u && u <= 0x200A)
        || u == 0x2028 || u == 0x2029 || u == 0x202F || u == 0x205F || u == 0x3000
}

/// `s` without its leading white space.
pub open spec fn trim_start(s: Seq<char>) -> Seq<char>
    decreases s.len(),
{
    if s.len() > 0 && is_space(s[0]) {
        trim_start(s.drop_first())
    } else {
        s
    }
}

/// `s` without its trailing white space.
pub open spec fn trim_end(s: Seq<char>) -> Seq<char>
    decreases s.len(),
{
    if s.len() > 0 && is_space(s.last()) {
        trim_end(s.drop_last())
    } else {
        s
    }
}

/// `s` without leading and trailing white space (`str::trim`).
pub open spec fn trimmed(s: Seq<char>) -> Seq<char> {
    trim_end(trim_start(s))
}

/// Text that neither starts nor ends with white space is its own trim.
pub proof fn lemma_trimmed_fixed(s: Seq<char>)
    requires
        s.len() > 0,
        !is_space(s[0]),
        !is_space(s.last()),
    ensures
        trimmed(s) == s,
{
}

/// Text that ends with `suffix` loses exactly it.
pub proof fn lemma_strip_suffix(x: Seq<char>, suffix: Seq<char>)
    ensures
        strip_suffix(x + suffix, suffix) == Some(x),
{
    let t = x + suffix;
    assert(t.subrange(t.len() - suffix.len(), t.len() as int) =~= suffix);
    assert(t.subrange(0, t.len() - suffix.len()) =~= x);
}

/// The bounds of `v[from..to]` once trimmed: `trimmed(v[from..to]) == v[a..b]`.
pub fn trim_bounds(v: &Vec<char>, from: usize, to: usize) -> (res: (usize, usize))
    requires
        from <= to <= v@.len(),
    ensures
        from <= res.0 <= res.1 <= to,
        v@.subrange(res.0 as int, res.1 as int) == trimmed(v@.subrange(from as int, to as int)),
{
    let ghost whole = v@.subrange(from as int, to as int);
    let mut a = from;
    while a < to && space(v[a])
        invariant
            from <= a <= to <= v@.len(),
            trim_start(v@.subrange(a as int, to as int)) == trim_start(whole),
        decreases to - a,
    {
        assert(v@.subrange(a as int, to as int).drop_first() =~= v@.subrange(a + 1, to as int));
        a = a + 1;
    }
    assert(trim_start(v@.subrange(a as int, to as int)) == v@.subrange(a as int, to as int));
    let mut b = to;
    while b > a && space(v[b - 1])
        invariant
            from <= a <= b <= to <= v@.len(),
            trim_end(v@.subrange(a as int, b as int)) == trimmed(whole),
        decreases b - a,
    {
        assert(v@.subrange(a as int, b as int).drop_last() =~= v@.subrange(a as int, b - 1));
        b = b - 1;
    }
    assert(trim_end(v@.subrange(a as int, b as int)) == v@.subrange(a as int, b as int));
    (a, b)
}

/// The position of the first `c` in `s`, if any.
pub open spec fn index_of(s: Seq<char>, c: char) -> Option<int>
    decreases s.len(),
{
    if s.len() == 0 {
        None
    } else if s[0] == c {
        Some(0)
    } else {
        match index_of(s.drop_first(), c) {
            Some(i) => Some(i + 1),
            None => None,
        }
    }
}

/// What `index_of` finds: the first occurrence, or none at all.
pub proof fn lemma_index_of(s: Seq<char>, c: char)
    ensures
        index_of(s, c) matches Some(i) ==> 0 <= i < s.len() && s[i] == c && forall|j: int| 0 <= j < i ==> s[j] != c,
        index_of(s, c) is None ==> forall|j: int| 0 <= j < s.len() ==> s[j] != c,
    decreases s.len(),
{
    if s.len() > 0 && s[0] != c {
        lemma_index_of(s.drop_first(), c);
        assert forall|j: int| 1 <= j < s.len() implies s[j] == s.drop_first()[j - 1] by {}
    }
}

/// A position is the one `index_of` finds when `c` stands there and nowhere before.
pub proof fn lemma_index_of_first(s: Seq<char>, c: char, i: int)
    requires
        0 <= i < s.len(),
        s[i] == c,
        forall|j: int| 0 <= j < i ==> s[j] != c,
    ensures
        index_of(s, c) == Some(i),
{
    lemma_index_of(s, c);
}

/// No position is found when `c` stands nowhere.
pub proof fn lemma_index_of_none(s: Seq<char>, c: char)
    requires
        forall|j: int| 0 <= j < s.len() ==> s[j] != c,
    ensures
        index_of(s, c) is None,
{
    lemma_index_of(s, c);
}

/// The position of the first `c` in `v[from..to]`, counted from the start of `v`.
pub fn find_char(v: &Vec<char>, from: usize, to: usize, c: char) -> (res: Option<usize>)
    requires
        from <= to <= v@.len(),
    ensures
        match index_of(v@.subrange(from as int, to as int), c) {
            Some(i) => res is Some && res->0 == from + i,
            None => res is None,
        },
        res matches Some(i) ==> from <= i < to && v@[i as int] == c,
{
    let ghost sub = v@.subrange(from as int, to as int);
    let mut i = from;
    while i < to
        invariant
            from <= i <= to <= v@.len(),
            sub == v@.subrange(from as int, to as int),
            forall|j: int| from <= j < i ==> v@[j] != c,
        decreases to - i,
    {
        if v[i] == c {
            proof {
                lemma_index_of_first(sub, c, i - from);
            }
            return Some(i);
        }
        i = i + 1;
    }
    proof {
        lemma_index_of_none(sub, c);
    }
    None
}

/// `s` without `suffix`, when it ends with it (`str::strip_suffix`).
pub open spec fn strip_suffix(s: Seq<char>, suffix: Seq<char>) -> Option<Seq<char>> {
    if s.len() >= suffix.len() && s.subrange(s.len() - suffix.len(), s.len() as int) == suffix {
        Some(s.subrange(0, s.len() - suffix.len()))
    } else {
        None
    }
}

/// Whether `v[from..to]` ends with `suffix`.
pub fn ends_with(v: &Vec<char>, from: usize, to: usize, suffix: &Vec<char>) -> (res: bool)
    requires
        from <= to <= v@.len(),
    ensures
        res == strip_suffix(v@.subrange(from as int, to as int), suffix@) is Some,
{
    let ghost sub = v@.subrange(from as int, to as int);
    if to - from < suffix.len() {
        return false;
    }
    let start = to - suffix.len();
    let mut k: usize = 0;
    while k < suffix.len()
        invariant
            from <= start <= to <= v@.len(),
            start + suffix@.len() == to,
            sub == v@.subrange(from as int, to as int),
            k <= suffix@.len(),
            forall|j: int| 0 <= j < k ==> v@[start + j] == suffix@[j],
        decreases suffix@.len() - k,
    {
        if v[start + k] != suffix[k] {
            assert(sub.subrange(sub.len() - suffix@.len(), sub.len() as int)[k as int] != suffix@[k as int]);
            return false;
        }
        k = k + 1;
    }
    assert(sub.subrange(sub.len() - suffix@.len(), sub.len() as int) =~= suffix@);
    true
}

/// The pieces of `s` between occurrences of `c` (`str::split`): one more piece than there are
/// occurrences.
pub open spec fn split_on(s: Seq<char>, c: char) -> Seq<Seq<char>>
    decreases s.len(),
{
    match index_of(s, c) {
        None => seq![s],
        Some(i) => {
            proof {
                lemma_index_of(s, c);
            }
            seq![s.subrange(0, i)] + split_on(s.subrange(i + 1, s.len() as int), c)
        },
    }
}

/// The ASCII decimal digits of `n`, most significant first, with no leading zeros
/// (`n.to_string()`).
pub open spec fn decimal_text(n: nat) -> Seq<char>
    decreases n,
{
    if n < 10 {
        seq![(48 + n) as char]
    } else {
        decimal_text(n / 10).push((48 + n % 10) as char)
    }
}

/// The decimal text of `n`.
pub fn decimal_string(n: u64) -> (res: String)
    ensures
        res@ == decimal_text(n as nat),
    decreases n,
{
    if n < 10 {
        let mut s = String::new();
        push_char(&mut s, char_of_digit(n));
        assert(s@ =~= decimal_text(n as nat));
        s
    } else {
        let mut s = decimal_string(n / 10);
        push_char(&mut s, char_of_digit(n % 10));
        s
    }
}

/// The character of a decimal digit.
fn char_of_digit(d: u64) -> (res: char)
    requires
        d < 10,
    ensures
        res == (48 + d) as char,
{
    let digits: [char; 10] = ['0', '1', '2', '3', '4', '5', '6', '7', '8', '9'];
    assert(digits@[d as int] == (48 + d) as char);
    digits[d as usize]
}

/// Whether `c` is an ASCII decimal digit.
pub open spec fn is_digit(c: char) -> bool {
    '0' <= c <= '9'
}

/// The value of a run of decimal digits.
pub open spec fn digits_value(d: Seq<char>) -> nat
    decreases d.len(),
{
    if d.len() == 0 {
        0
    } else {
        (digits_value(d.drop_last()) * 10 + (d.last() as int - 48)) as nat
    }
}

/// Whether every character of `d` is a decimal digit.
pub open spec fn all_digits(d: Seq<char>) -> bool {
    forall|i: int| 0 <= i < d.len() ==> is_digit(#[trigger] d[i])
}

/// The digits of a number's text: the text without one leading `+`.
pub open spec fn unsigned_part(s: Seq<char>) -> Seq<char> {
    if s.len() > 0 && s[0] == '+' {
        s.drop_first()
    } else {
        s
    }
}

/// The number a text reads as (`str::parse::<u32>`): an optional `+`, then one or more
/// decimal digits whose value fits in 32 bits.
pub open spec fn parsed_u32(s: Seq<char>) -> Option<u32> {
    let d = unsigned_part(s);
    if d.len() > 0 && all_digits(d) && digits_value(d) <= u32::MAX {
        Some(digits_value(d) as u32)
    } else {
        None
    }
}

/// A run of digits is worth at least as much as any of its prefixes.
proof fn lemma_digits_prefix(d: Seq<char>, k: int)
    requires
        0 <= k <= d.len(),
        forall|i: int| 0 <= i < d.len() ==> is_digit(#[trigger] d[i]),
    ensures
        digits_value(d.subrange(0, k)) <= digits_value(d),
    decreases d.len(),
{
    if k < d.len() {
        let p = d.drop_last();
        assert(p.subrange(0, k) =~= d.subrange(0, k));
        assert forall|i: int| 0 <= i < p.len() implies is_digit(#[trigger] p[i]) by {
            assert(p[i] == d[i]);
        }
        lemma_digits_prefix(p, k);
        assert(is_digit(d[d.len() - 1]));
    } else {
        assert(d.subrange(0, k) =~= d);
    }
}

/// The number `v[from..to]` reads as (see `parsed_u32`).
pub fn parse_u32(v: &Vec<char>, from: usize, to: usize) -> (res: Option<u32>)
    requires
        from <= to <= v@.len(),
    ensures
        res == parsed_u32(v@.subrange(from as int, to as int)),
{
    let ghost s = v@.subrange(from as int, to as int);
    let mut i = from;
    if i < to && v[i] == '+' {
        i = i + 1;
    }
    let start = i;
    let ghost d = unsigned_part(s);
    assert(d =~= v@.subrange(start as int, to as int));
    if start == to {
        return None;
    }
    let mut acc: u64 = 0;
    while i < to
        invariant
            from <= start <= i <= to <= v@.len(),
            d == v@.subrange(start as int, to as int),
            s == v@.subrange(from as int, to as int),
            d == unsigned_part(s),
            acc == digits_value(v@.subrange(start as int, i as int)),
            acc <= u32::MAX,
            forall|j: int| start <= j < i ==> is_digit(#[trigger] v@[j]),
        decreases to - i,
    {
        let c = v[i];
        if !('0' <= c && c <= '9') {
            assert(d[i - start] == c);
            assert(!is_digit(d[i - start]));
            assert(parsed_u32(s) is None);
            return None;
        }
        let ghost prev = v@.subrange(start as int, i as int);
        assert(v@.subrange(start as int, i + 1).drop_last() =~= prev);
        acc = acc * 10 + (c as u32 - 48) as u64;
        i = i + 1;
        if acc > 0xFFFF_FFFF {
            proof {
                let p = v@.subrange(start as int, i as int);
                if all_digits(d) {
                    assert(d.subrange(0, i - start) =~= p);
                    lemma_digits_prefix(d, i - start);
                }
                assert(parsed_u32(s) is None);
            }
            return None;
        }
    }
    assert(v@.subrange(start as int, i as int) =~= d);
    Some(acc as u32)
}

/// Decimal text reads back as the number it was written from.
pub proof fn lemma_decimal_parses(n: u32)
    ensures
        parsed_u32(decimal_text(n as nat)) == Some(n),
{
    lemma_decimal_digits(n as nat);
}

/// Decimal text is a non-empty run of digits worth the number.
pub proof fn lemma_decimal_digits(n: nat)
    ensures
        decimal_text(n).len() > 0,
        decimal_text(n)[0] != '+',
        forall|i: int| 0 <= i < decimal_text(n).len() ==> is_digit(#[trigger] decimal_text(n)[i]),
        digits_value(decimal_text(n)) == n,
    decreases n,
{
    if n >= 10 {
        lemma_decimal_digits(n / 10);
        let t = decimal_text(n);
        assert(t.drop_last() =~= decimal_text(n / 10));
        assert forall|i: int| 0 <= i < t.len() implies is_digit(#[trigger] t[i]) by {
            if i < t.len() - 1 {
                assert(t[i] == decimal_text(n / 10)[i]);
            }
        }
    } else {
        assert(digits_value(decimal_text(n)) == digits_value(decimal_text(n).drop_last()) * 10 + n);
        assert(decimal_text(n).drop_last() =~= Seq::<char>::empty());
    }
}

/// The position of the first `a` directly followed by `b` in `s`, if any.
pub open spec fn index_of_pair(s: Seq<char>, a: char, b: char) -> Option<int>
    decreases s.len(),
{
    if s.len() < 2 {
        None
    } else if s[0] == a && s[1] == b {
        Some(0)
    } else {
        match index_of_pair(s.drop_first(), a, b) {
            Some(i) => Some(i + 1),
            None => None,
        }
    }
}

/// What `index_of_pair` finds: the first occurrence of the pair, or none at all.
pub proof fn lemma_index_of_pair(s: Seq<char>, a: char, b: char)
    ensures
        index_of_pair(s, a, b) matches Some(i) ==> 0 <= i && i + 1 < s.len() && s[i] == a && s[i + 1] == b
            && forall|j: int| 0 <= j < i ==> !(s[j] == a && #[trigger] s[j + 1] == b),
        index_of_pair(s, a, b) is None ==> forall|j: int| 0 <= j && j + 1 < s.len() ==> !(s[j] == a && #[trigger] s[j + 1] == b),
    decreases s.len(),
{
    if s.len() >= 2 && !(s[0] == a && s[1] == b) {
        let t = s.drop_first();
        lemma_index_of_pair(t, a, b);
        assert forall|j: int| 1 <= j < s.len() implies s[j] == t[j - 1] by {}
        if index_of_pair(t, a, b) is None {
            assert forall|j: int| 0 <= j && j + 1 < s.len() implies !(s[j] == a && #[trigger] s[j + 1] == b) by {
                if j > 0 {
                    assert(s[j] == t[j - 1] && s[j + 1] == t[j]);
                }
            }
        } else {
            let i = index_of_pair(t, a, b)->0;
            assert forall|j: int| 0 <= j < i + 1 implies !(s[j] == a && #[trigger] s[j + 1] == b) by {
                if j > 0 {
                    assert(s[j] == t[j - 1] && s[j + 1] == t[j]);
                }
            }
        }
    }
}

/// The position of the first `a` directly followed by `b` in `v[from..to]`, counted from the
/// start of `v`.
pub fn find_pair(v: &Vec<char>, from: usize, to: usize, a: char, b: char) -> (res: Option<usize>)
    requires
        from <= to <= v@.len(),
    ensures
        match index_of_pair(v@.subrange(from as int, to as int), a, b) {
            Some(i) => res is Some && res->0 == from + i,
            None => res is None,
        },
{
    let ghost sub = v@.subrange(from as int, to as int);
    let mut i = from;
    while to - i >= 2
        invariant
            from <= i <= to <= v@.len(),
            sub == v@.subrange(from as int, to as int),
            forall|j: int| from <= j < i && j + 1 < to ==> !(v@[j] == a && #[trigger] v@[j + 1] == b),
        decreases to - i,
    {
        if v[i] == a && v[i + 1] == b {
            proof {
                lemma_index_of_pair(sub, a, b);
                assert(sub[i - from] == a && sub[i - from + 1] == b);
                if index_of_pair(sub, a, b) is Some {
                    let k = index_of_pair(sub, a, b)->0;
                    assert(sub[k] == v@[from + k] && sub[k + 1] == v@[from + k + 1]);
                }
            }
            return Some(i);
        }
        i = i + 1;
    }
    proof {
        lemma_index_of_pair(sub, a, b);
        if index_of_pair(sub, a, b) is Some {
            let k = index_of_pair(sub, a, b)->0;
            assert(sub[k] == v@[from + k] && sub[k + 1] == v@[from + k + 1]);
        }
    }
    None
}

/// Whether `v[from..to]` holds exactly the characters of `w`.
pub fn same_chars(v: &Vec<char>, from: usize, to: usize, w: &Vec<char>) -> (res: bool)
    requires
        from <= to <= v@.len(),
    ensures
        res == (v@.subrange(from as int, to as int) == w@),
{
    if to - from != w.len() {
        return false;
    }
    let mut k: usize = 0;
    while k < w.len()
        invariant
            from <= to <= v@.len(),
            to - from == w@.len(),
            k <= w@.len(),
            forall|j: int| 0 <= j < k ==> v@[from + j] == w@[j],
        decreases w@.len() - k,
    {
        if v[from + k] != w[k] {
            assert(v@.subrange(from as int, to as int)[k as int] != w@[k as int]);
            return false;
        }
        k = k + 1;
    }
    assert(v@.subrange(from as int, to as int) =~= w@);
    true
}

/// The text that `String::from_utf8_lossy` makes of `bytes` that are not valid UTF-8.
pub uninterp spec fn utf8_lossy(bytes: Seq<u8>) -> Seq<char>;

/// The text of received bytes: valid UTF-8 decodes to the characters it encodes; otherwise
/// the text `String::from_utf8_lossy` makes (ill-formed sequences become U+FFFD).
pub open spec fn lossy_text(bytes: Seq<u8>) -> Seq<char> {
    if valid_utf8(bytes) {
        decode_utf8(bytes)
    } else {
        utf8_lossy(bytes)
    }
}

/// The text of received bytes (`String::from_utf8_lossy`). The contract claims what std
/// documents: valid UTF-8 comes back as the text it encodes, unchanged; of other input it
/// names the result, in which ill-formed sequences become U+FFFD.
#[verifier::external_body]
pub(crate) fn text_of_bytes(bytes: &[u8]) -> (res: String)
    ensures
        valid_utf8(bytes@) ==> res@ == decode_utf8(bytes@),
        !valid_utf8(bytes@) ==> res@ == utf8_lossy(bytes@),
{
    String::from_utf8_lossy(bytes).into_owned()
}

/// The views of a list of strings.
pub open spec fn texts(v: Seq<String>) -> Seq<Seq<char>> {
    v.map_values(|t: String| t@)
}

/// The pieces of `s` between occurrences of `sep`, each trimmed.
pub open spec fn trimmed_pieces(s: Seq<char>, sep: char) -> Seq<Seq<char>> {
    split_on(s, sep).map_values(|p: Seq<char>| trimmed(p))
}

/// Splits `s` at every `sep` and trims each piece (`s.split(sep).map(str::trim)`).
pub fn split_trimmed(s: &str, sep: char) -> (res: Vec<String>)
    ensures
        texts(res@) == trimmed_pieces(s@, sep),
{
    let v = chars_of(s);
    let n = v.len();
    let mut out: Vec<String> = Vec::new();
    let mut pos: usize = 0;
    let mut done = false;
    assert(v@.subrange(0, n as int) =~= v@);
    while !done
        invariant
            pos <= n == v@.len(),
            !done ==> texts(out@) + trimmed_pieces(v@.subrange(pos as int, n as int), sep) == trimmed_pieces(v@, sep),
            done ==> texts(out@) == trimmed_pieces(v@, sep),
        decreases n - pos + (if done { 0int } else { 1int }),
    {
        let ghost rest = v@.subrange(pos as int, n as int);
        match find_char(&v, pos, n, sep) {
            Some(i) => {
                let (a, b) = trim_bounds(&v, pos, i);
                let piece = string_of(&v, a, b);
                proof {
                    lemma_index_of(rest, sep);
                    let k = i - pos;
                    assert(rest.subrange(0, k) =~= v@.subrange(pos as int, i as int));
                    assert(rest.subrange(k + 1, rest.len() as int) =~= v@.subrange(i + 1, n as int));
                    assert(trimmed_pieces(rest, sep) =~= seq![piece@] + trimmed_pieces(v@.subrange(i + 1, n as int), sep));
                }
                let ghost before = texts(out@);
                out.push(piece);
                proof {
                    assert(texts(out@) =~= before.push(piece@));
                    assert(texts(out@) + trimmed_pieces(v@.subrange(i + 1, n as int), sep) =~= before + trimmed_pieces(rest, sep));
                }
                pos = i + 1;
            },
            None => {
                let (a, b) = trim_bounds(&v, pos, n);
                let piece = string_of(&v, a, b);
                proof {
                    assert(trimmed_pieces(rest, sep) =~= seq![piece@]);
                }
                let ghost before = texts(out@);
                out.push(piece);
                proof {
                    assert(texts(out@) =~= before + trimmed_pieces(rest, sep));
                }
                done = true;
            },
        }
    }
    out
}

/// Whether `a` comes no later than `b` in lexicographic order of code points (the order of
/// `String`'s `Ord`: UTF-8 byte order and code point order agree).
pub open spec fn text_le(a: Seq<char>, b: Seq<char>) -> bool
    decreases a.len(),
{
    if a.len() == 0 {
        true
    } else if b.len() == 0 {
        false
    } else if a[0] != b[0] {
        (a[0] as int) < (b[0] as int)
    } else {
        text_le(a.drop_first(), b.drop_first())
    }
}

/// Any two texts are ordered one way or the other.
pub proof fn lemma_text_le_total(a: Seq<char>, b: Seq<char>)
    ensures
        text_le(a, b) || text_le(b, a),
    decreases a.len(),
{
    if a.len() > 0 && b.len() > 0 {
        if a[0] == b[0] {
            lemma_text_le_total(a.drop_first(), b.drop_first());
        } else {
            assert((a[0] as int) != (b[0] as int));
        }
    }
}

/// Whether `a` comes no later than `b` (see `text_le`).
pub fn texts_in_order(a: &String, b: &String) -> (res: bool)
    ensures
        res == text_le(a@, b@),
{
    let x = chars_of(a.as_str());
    let y = chars_of(b.as_str());
    let mut i: usize = 0;
    assert(x@.subrange(0, x@.len() as int) =~= x@);
    assert(y@.subrange(0, y@.len() as int) =~= y@);
    while i < x.len() && i < y.len() && x[i] == y[i]
        invariant
            i <= x@.len(),
            i <= y@.len(),
            x@ == a@,
            y@ == b@,
            text_le(x@.subrange(i as int, x@.len() as int), y@.subrange(i as int, y@.len() as int)) == text_le(a@, b@),
        decreases x@.len() - i,
    {
        assert(x@.subrange(i as int, x@.len() as int).drop_first() =~= x@.subrange(i + 1, x@.len() as int));
        assert(y@.subrange(i as int, y@.len() as int).drop_first() =~= y@.subrange(i + 1, y@.len() as int));
        i = i + 1;
    }
    if i == x.len() {
        true
    } else if i == y.len() {
        false
    } else {
        x[i] < y[i]
    }
}

/// Whether the texts of `s` never go down.
pub open spec fn texts_sorted(s: Seq<Seq<char>>) -> bool {
    forall|i: int, j: int| 0 <= i < j < s.len() ==> text_le(s[i], s[j])
}

/// Sorts strings (`sort` of the standard library): the same strings, in lexicographic order.
pub fn sort_texts(v: Vec<String>) -> (res: Vec<String>)
    ensures
        texts_sorted(texts(res@)),
        texts(res@).to_multiset() == texts(v@).to_multiset(),
{
    broadcast use vstd::seq_lib::group_to_multiset_ensures;
    let ghost orig = v@;
    let mut rest = v;
    let mut res: Vec<String> = Vec::new();
    let ghost mut done: int = 0;
    while rest.len() > 0
        invariant
            0 <= done <= orig.len(),
            rest@ == orig.skip(done),
            texts_sorted(texts(res@)),
            texts(res@).to_multiset() == texts(orig.take(done)).to_multiset(),
        decreases rest@.len(),
    {
        let x = rest.remove(0);
        let mut pos = res.len();
        while pos > 0 && !texts_in_order(&res[pos - 1], &x)
            invariant
                pos <= res@.len(),
                forall|j: int| pos <= j < res@.len() ==> !text_le(#[trigger] res@[j]@, x@),
            decreases pos,
        {
            pos = pos - 1;
        }
        let ghost before = texts(res@);
        proof {
            assert forall|j: int| pos <= j < before.len() implies text_le(x@, #[trigger] before[j]) by {
                lemma_text_le_total(before[j], x@);
            }
        }
        res.insert(pos, x);
        proof {
            let after = texts(res@);
            assert(after =~= before.insert(pos as int, x@));
            assert forall|i: int, j: int| 0 <= i < j < after.len() implies text_le(after[i], after[j]) by {
                if j == pos {
                    assert(after[i] == before[i]);
                    if pos > 0 {
                        assert(text_le(before[pos - 1], x@));
                        if i < pos - 1 {
                            lemma_text_le_trans(before[i], before[pos - 1], x@);
                        }
                    }
                } else if i == pos {
                    assert(after[j] == before[j - 1]);
                } else if i < pos && j > pos {
                    assert(after[i] == before[i] && after[j] == before[j - 1]);
                } else if j < pos {
                    assert(after[i] == before[i] && after[j] == before[j]);
                } else {
                    assert(after[i] == before[i - 1] && after[j] == before[j - 1]);
                }
            }
            assert(texts(orig.take(done + 1)) =~= texts(orig.take(done)).push(x@));
            vstd::seq_lib::to_multiset_insert(before, pos as int, x@);
            vstd::seq_lib::to_multiset_build(texts(orig.take(done)), x@);
            done = done + 1;
            assert(rest@ =~= orig.skip(done));
        }
    }
    proof {
        assert(orig.take(done) =~= orig);
    }
    res
}

/// The order of texts is transitive.
pub proof fn lemma_text_le_trans(a: Seq<char>, b: Seq<char>, c: Seq<char>)
    requires
        text_le(a, b),
        text_le(b, c),
    ensures
        text_le(a, c),
    decreases a.len(),
{
    if a.len() > 0 && b.len() > 0 && c.len() > 0 && a[0] == b[0] && b[0] == c[0] {
        lemma_text_le_trans(a.drop_first(), b.drop_first(), c.drop_first());
    }
}

/// The position of the first occurrence of `pat` in `s`, if any.
pub open spec fn index_of_seq(s: Seq<char>, pat: Seq<char>) -> Option<int>
    decreases s.len(),
{
    if s.len() < pat.len() {
        None
    } else if s.subrange(0, pat.len() as int) == pat {
        Some(0)
    } else if s.len() == 0 {
        None
    } else {
        match index_of_seq(s.drop_first(), pat) {
            Some(i) => Some(i + 1),
            None => None,
        }
    }
}

/// What `index_of_seq` finds: the first occurrence, or none at all.
pub proof fn lemma_index_of_seq(s: Seq<char>, pat: Seq<char>)
    ensures
        index_of_seq(s, pat) matches Some(i) ==> 0 <= i && i + pat.len() <= s.len() && s.subrange(i, i + pat.len()) == pat
            && forall|j: int| 0 <= j < i ==> #[trigger] s.subrange(j, j + pat.len()) != pat,
        index_of_seq(s, pat) is None ==> forall|j: int| 0 <= j && j + pat.len() <= s.len() ==> #[trigger] s.subrange(j, j + pat.len()) != pat,
    decreases s.len(),
{
    if s.len() >= pat.len() && s.subrange(0, pat.len() as int) != pat && s.len() > 0 {
        let t = s.drop_first();
        lemma_index_of_seq(t, pat);
        assert forall|j: int| 1 <= j && j + pat.len() <= s.len() implies #[trigger] s.subrange(j, j + pat.len()) == t.subrange(j - 1, j - 1 + pat.len()) by {
            assert(s.subrange(j, j + pat.len()) =~= t.subrange(j - 1, j - 1 + pat.len()));
        }
    }
}

/// The last piece of `s` split at `pat` (`s.split(pat).last()`): what follows the last of the
/// occurrences found scanning from the left without overlap; all of `s` when there is none.
pub open spec fn last_piece(s: Seq<char>, pat: Seq<char>) -> Seq<char>
    decreases s.len(),
{
    if pat.len() == 0 {
        s
    } else {
        match index_of_seq(s, pat) {
            None => s,
            Some(i) => {
                proof {
                    lemma_index_of_seq(s, pat);
                }
                last_piece(s.subrange(i + pat.len(), s.len() as int), pat)
            },
        }
    }
}

/// The position of the first occurrence of `pat` in `v[from..to]`, counted from the start of `v`.
pub fn find_seq(v: &Vec<char>, from: usize, to: usize, pat: &Vec<char>) -> (res: Option<usize>)
    requires
        from <= to <= v@.len(),
    ensures
        match index_of_seq(v@.subrange(from as int, to as int), pat@) {
            Some(i) => res is Some && res->0 == from + i,
            None => res is None,
        },
{
    let ghost sub = v@.subrange(from as int, to as int);
    let m = pat.len();
    let mut i = from;
    while to - i >= m
        invariant
            from <= i <= to <= v@.len(),
            m == pat@.len(),
            sub == v@.subrange(from as int, to as int),
            forall|j: int| from <= j < i && j + m <= to ==> #[trigger] v@.subrange(j, j + m) != pat@,
        decreases to - i,
    {
        proof {
            if m == 0 {
                assert(v@.subrange(i as int, i as int) =~= pat@);
            }
        }
        if same_chars(v, i, i + m, pat) {
            proof {
                lemma_index_of_seq(sub, pat@);
                assert(sub.subrange(i - from, i - from + m) =~= v@.subrange(i as int, i + m));
                if index_of_seq(sub, pat@) is Some {
                    let k = index_of_seq(sub, pat@)->0;
                    assert(sub.subrange(k, k + m) =~= v@.subrange(from + k, from + k + m));
                }
            }
            return Some(i);
        }
        i = i + 1;
    }
    proof {
        lemma_index_of_seq(sub, pat@);
        if index_of_seq(sub, pat@) is Some {
            let k = index_of_seq(sub, pat@)->0;
            assert(sub.subrange(k, k + m) =~= v@.subrange(from + k, from + k + m));
        }
    }
    None
}

/// Where the last piece of `v[from..to]` split at `pat` starts (see `last_piece`).
pub fn last_piece_start(v: &Vec<char>, from: usize, to: usize, pat: &Vec<char>) -> (res: usize)
    requires
        from <= to <= v@.len(),
    ensures
        from <= res <= to,
        v@.subrange(res as int, to as int) == last_piece(v@.subrange(from as int, to as int), pat@),
{
    if pat.len() == 0 {
        return from;
    }
    let mut start = from;
    loop
        invariant
            from <= start <= to <= v@.len(),
            pat@.len() > 0,
            last_piece(v@.subrange(start as int, to as int), pat@) == last_piece(v@.subrange(from as int, to as int), pat@),
        decreases to - start,
    {
        match find_seq(v, start, to, pat) {
            None => {
                return start;
            },
            Some(i) => {
                proof {
                    lemma_index_of_seq(v@.subrange(start as int, to as int), pat@);
                    assert(v@.subrange(start as int, to as int).subrange(i - start + pat@.len(), to - start) =~= v@.subrange(i + pat@.len(), to as int));
                }
                start = i + pat.len();
            },
        }
    }
}

/// The number a text reads as (`str::parse::<u64>`): an optional `+`, then one or more
/// decimal digits whose value fits in 64 bits.
pub open spec fn parsed_u64(s: Seq<char>) -> Option<u64> {
    let d = unsigned_part(s);
    if d.len() > 0 && all_digits(d) && digits_value(d) <= u64::MAX {
        Some(digits_value(d) as u64)
    } else {
        None
    }
}

/// The number `v[from..to]` reads as (see `parsed_u64`).
pub fn parse_u64(v: &Vec<char>, from: usize, to: usize) -> (res: Option<u64>)
    requires
        from <= to <= v@.len(),
    ensures
        res == parsed_u64(v@.subrange(from as int, to as int)),
{
    let ghost s = v@.subrange(from as int, to as int);
    let mut i = from;
    if i < to && v[i] == '+' {
        i = i + 1;
    }
    let start = i;
    let ghost d = unsigned_part(s);
    assert(d =~= v@.subrange(start as int, to as int));
    if start == to {
        return None;
    }
    let mut acc: u128 = 0;
    while i < to
        invariant
            from <= start <= i <= to <= v@.len(),
            d == v@.subrange(start as int, to as int),
            s == v@.subrange(from as int, to as int),
            d == unsigned_part(s),
            acc == digits_value(v@.subrange(start as int, i as int)),
            acc <= u64::MAX,
            forall|j: int| start <= j < i ==> is_digit(#[trigger] v@[j]),
        decreases to - i,
    {
        let c = v[i];
        if !('0' <= c && c <= '9') {
            assert(d[i - start] == c);
            assert(!is_digit(d[i - start]));
            assert(parsed_u64(s) is None);
            return None;
        }
        let ghost prev = v@.subrange(start as int, i as int);
        assert(v@.subrange(start as int, i + 1).drop_last() =~= prev);
        acc = acc * 10 + (c as u32 - 48) as u128;
        i = i + 1;
        if acc > 0xFFFF_FFFF_FFFF_FFFF {
            proof {
                let p = v@.subrange(start as int, i as int);
                if all_digits(d) {
                    assert(d.subrange(0, i - start) =~= p);
                    lemma_digits_prefix(d, i - start);
                }
                assert(parsed_u64(s) is None);
            }
            return None;
        }
    }
    assert(v@.subrange(start as int, i as int) =~= d);
    Some(acc as u64)
}

/// Decimal text reads back as the number it was written from.
pub proof fn lemma_decimal_parses_u64(n: u64)
    ensures
        parsed_u64(decimal_text(n as nat)) == Some(n),
{
    lemma_decimal_digits(n as nat);
}

} // verus!
