//! Text as a sequence of characters: the small vocabulary the rest of the crate is written in.

use vstd::prelude::*;
use vstd::string::*;

verus! {

/// `String::push` appends one character.
pub assume_specification[ String::push ](s: &mut String, c: char)
    ensures
        final(s)@ == old(s)@.push(c),
;

/// Whether a character has the Unicode property White_Space.
pub open spec fn white_space(c: char) -> bool {
    let code = c as u32;
    ||| 0x09 <= code <= 0x0d
    ||| code == 0x20
    ||| code == 0x85
    ||| code == 0xa0
    ||| code == 0x1680
    ||| 0x2000 <= code <= 0x200a
    ||| code == 0x2028
    ||| code == 0x2029
    ||| code == 0x202f
    ||| code == 0x205f
    ||| code == 0x3000
}

/// `char::is_whitespace` says whether a character has the property White_Space of the Unicode
/// Character Database, which these characters have.
pub assume_specification[ char::is_whitespace ](c: char) -> (white: bool)
    ensures
        white == white_space(c),
;

/// The Unicode lower-case form of a text, as `str::to_lowercase` gives it.
pub uninterp spec fn unicode_lower(s: Seq<char>) -> Seq<char>;

/// `str::to_lowercase` depends on its text alone.
#[verifier::external_body]
pub(crate) fn lowercase(s: &str) -> (r: String)
    ensures
        r@ == unicode_lower(s@),
{
    s.to_lowercase()
}

/// The Unicode upper-case form of a text, as `str::to_uppercase` gives it.
pub uninterp spec fn unicode_upper(s: Seq<char>) -> Seq<char>;

/// `str::to_uppercase` depends on its text alone.
#[verifier::external_body]
pub(crate) fn uppercase(s: &str) -> (r: String)
    ensures
        r@ == unicode_upper(s@),
{
    s.to_uppercase()
}

/// The characters of each string of a list.
pub open spec fn texts(v: Seq<String>) -> Seq<Seq<char>> {
    Seq::new(v.len(), |i: int| v[i]@)
}

/// The characters of `s`, in order.
pub fn chars_of(s: &str) -> (v: Vec<char>)
    ensures
        v@ == s@,
{
    let mut v: Vec<char> = Vec::new();
    for c in it: s.chars()
        invariant
            v@ == it.seq().take(it.index()),
            it.seq() == s@,
    {
        v.push(c);
    }
    v
}

/// The string made of the characters of `v` from `from` up to `to`.
pub fn string_between(v: &Vec<char>, from: usize, to: usize) -> (s: String)
    requires
        from <= to <= v.len(),
    ensures
        s@ == v@.subrange(from as int, to as int),
{
    let mut s = String::new();
    let mut i: usize = from;
    while i < to
        invariant
            from <= i <= to <= v.len(),
            s@ == v@.subrange(from as int, i as int),
        decreases to - i,
    {
        s.push(v[i]);
        i = i + 1;
    }
    s
}

/// Whether two texts have the same characters.
pub fn same(a: &str, b: &str) -> (r: bool)
    ensures
        r == (a@ == b@),
{
    let a = chars_of(a);
    let b = chars_of(b);
    same_chars(&a, &b)
}

/// Whether two character lists are equal.
pub fn same_chars(a: &Vec<char>, b: &Vec<char>) -> (r: bool)
    ensures
        r == (a@ == b@),
{
    if a.len() != b.len() {
        return false;
    }
    let mut i: usize = 0;
    while i < a.len()
        invariant
            i <= a.len(),
            a.len() == b.len(),
            a@.take(i as int) == b@.take(i as int),
        decreases a.len() - i,
    {
        if a[i] != b[i] {
            return false;
        }
        assert(a@.take(i + 1) =~= a@.take(i as int).push(a@[i as int]));
        assert(b@.take(i + 1) =~= b@.take(i as int).push(b@[i as int]));
        i = i + 1;
    }
    assert(a@ =~= a@.take(a@.len() as int));
    assert(b@ =~= b@.take(b@.len() as int));
    true
}

/// `a` followed by `b`.
pub fn concat(a: &str, b: &str) -> (r: String)
    ensures
        r@ == a@ + b@,
{
    let mut r = a.to_owned();
    r.append(b);
    r
}

/// The ASCII lower-case form of a character; every other character stays as it is.
pub open spec fn lower_char(c: char) -> char {
    if 'A' <= c && c <= 'Z' {
        (c as int + 32) as char
    } else {
        c
    }
}

/// The ASCII lower-case form of a text.
pub open spec fn ascii_lower(s: Seq<char>) -> Seq<char> {
    Seq::new(s.len(), |i: int| lower_char(s[i]))
}

/// The ASCII lower-case form of `c`.
pub fn to_lower_char(c: char) -> (r: char)
    ensures
        r == lower_char(c),
{
    if 'A' <= c && c <= 'Z' {
        (c as u8 + 32) as char
    } else {
        c
    }
}

/// The ASCII lower-case form of `s`.
pub fn to_ascii_lower(s: &str) -> (r: String)
    ensures
        r@ == ascii_lower(s@),
{
    let v = chars_of(s);
    let mut r = String::new();
    let mut i: usize = 0;
    while i < v.len()
        invariant
            i <= v.len(),
            r@ == ascii_lower(v@).take(i as int),
        decreases v.len() - i,
    {
        r.push(to_lower_char(v[i]));
        i = i + 1;
    }
    assert(r@ =~= ascii_lower(v@));
    r
}

/// Whether `p` stands in `s` at position `i`.
pub open spec fn occurs_at(s: Seq<char>, p: Seq<char>, i: int) -> bool {
    0 <= i && i + p.len() <= s.len() && s.subrange(i, i + p.len()) == p
}

/// Whether `p` stands anywhere in `s`.
pub open spec fn contains(s: Seq<char>, p: Seq<char>) -> bool {
    exists|i: int| occurs_at(s, p, i)
}

/// Whether `p` stands in `s` at position `at`.
pub fn stands_at(s: &Vec<char>, p: &Vec<char>, at: usize) -> (r: bool)
    ensures
        r == occurs_at(s@, p@, at as int),
{
    if at > s.len() || s.len() - at < p.len() {
        return false;
    }
    let mut k: usize = 0;
    while k < p.len()
        invariant
            k <= p.len(),
            at + p.len() <= s.len(),
            forall|j: int| 0 <= j < k ==> s@[at + j] == #[trigger] p@[j],
        decreases p.len() - k,
    {
        if s[at + k] != p[k] {
            assert(s@.subrange(at as int, at + p@.len())[k as int] != p@[k as int]);
            return false;
        }
        k = k + 1;
    }
    assert(s@.subrange(at as int, at + p@.len()) =~= p@);
    true
}

/// The first position from `from` on at which `p` stands in `s`.
pub fn find_from(s: &Vec<char>, p: &Vec<char>, from: usize) -> (r: Option<usize>)
    requires
        from <= s.len(),
    ensures
        match r {
            Some(i) => from <= i && occurs_at(s@, p@, i as int) && forall|j: int|
                from <= j < i ==> !occurs_at(s@, p@, j),
            None => forall|j: int| from <= j ==> !occurs_at(s@, p@, j),
        },
{
    let mut i: usize = from;
    while i < s.len()
        invariant
            from <= i <= s.len(),
            forall|j: int| from <= j < i ==> !occurs_at(s@, p@, j),
        decreases s.len() - i,
    {
        if stands_at(s, p, i) {
            return Some(i);
        }
        i = i + 1;
    }
    if stands_at(s, p, i) {
        return Some(i);
    }
    None
}

/// Whether `p` stands anywhere in `s`.
pub fn has_text(s: &str, p: &str) -> (r: bool)
    ensures
        r == contains(s@, p@),
{
    let s = chars_of(s);
    let p = chars_of(p);
    match find_from(&s, &p, 0) {
        Some(i) => {
            assert(occurs_at(s@, p@, i as int));
            true
        },
        None => false,
    }
}

/// Whether `s` begins with `p`.
pub open spec fn starts_with(s: Seq<char>, p: Seq<char>) -> bool {
    occurs_at(s, p, 0)
}

/// Whether `s` ends with `p`.
pub open spec fn ends_with(s: Seq<char>, p: Seq<char>) -> bool {
    occurs_at(s, p, s.len() - p.len())
}

/// Whether `s` begins with `p`.
pub fn has_prefix(s: &str, p: &str) -> (r: bool)
    ensures
        r == starts_with(s@, p@),
{
    let s = chars_of(s);
    let p = chars_of(p);
    stands_at(&s, &p, 0)
}

/// Whether `s` ends with `p`.
pub fn has_suffix(s: &str, p: &str) -> (r: bool)
    ensures
        r == ends_with(s@, p@),
{
    let s = chars_of(s);
    let p = chars_of(p);
    if p.len() > s.len() {
        return false;
    }
    stands_at(&s, &p, s.len() - p.len())
}

/// The pieces of `s` between the separators: one more than there are separators.
pub open spec fn split(s: Seq<char>, sep: char) -> Seq<Seq<char>>
    decreases s.len(),
{
    if s.len() == 0 {
        seq![Seq::<char>::empty()]
    } else {
        let before = split(s.drop_last(), sep);
        if s.last() == sep {
            before.push(Seq::<char>::empty())
        } else {
            before.update(before.len() - 1, before.last().push(s.last()))
        }
    }
}

/// A split always has a piece.
pub proof fn lemma_split_nonempty(s: Seq<char>, sep: char)
    ensures
        split(s, sep).len() >= 1,
    decreases s.len(),
{
    if s.len() > 0 {
        lemma_split_nonempty(s.drop_last(), sep);
    }
}

/// The pieces of `s` between the separators.
pub fn split_text(s: &str, sep: char) -> (r: Vec<String>)
    ensures
        texts(r@) == split(s@, sep),
{
    let v = chars_of(s);
    let mut r: Vec<String> = Vec::new();
    let mut piece = String::new();
    let mut i: usize = 0;
    assert(v@.take(0) =~= Seq::<char>::empty());
    assert(texts(r@).push(piece@) =~= seq![Seq::<char>::empty()]);
    while i < v.len()
        invariant
            i <= v.len(),
            texts(r@).push(piece@) == split(v@.take(i as int), sep),
        decreases v.len() - i,
    {
        let c = v[i];
        let ghost done = texts(r@);
        let ghost cur = piece@;
        assert(v@.take(i + 1).drop_last() =~= v@.take(i as int));
        if c == sep {
            r.push(piece);
            piece = String::new();
            assert(texts(r@) =~= done.push(cur));
        } else {
            piece.push(c);
            assert(texts(r@).push(piece@) =~= done.push(cur).update(
                done.push(cur).len() - 1,
                cur.push(c),
            ));
        }
        i = i + 1;
    }
    assert(v@.take(v@.len() as int) =~= v@);
    let ghost done = texts(r@);
    let ghost cur = piece@;
    r.push(piece);
    assert(texts(r@) =~= done.push(cur));
    r
}

/// The texts in order with `sep` between each two.
pub open spec fn join(parts: Seq<Seq<char>>, sep: Seq<char>) -> Seq<char>
    decreases parts.len(),
{
    if parts.len() == 0 {
        Seq::<char>::empty()
    } else if parts.len() == 1 {
        parts[0]
    } else {
        join(parts.drop_last(), sep) + sep + parts.last()
    }
}

/// Appending a text without the separator makes the last piece longer.
pub proof fn lemma_split_append(base: Seq<char>, more: Seq<char>, sep: char)
    requires
        !more.contains(sep),
    ensures
        split(base + more, sep) == split(base, sep).update(
            split(base, sep).len() - 1,
            split(base, sep).last() + more,
        ),
    decreases more.len(),
{
    lemma_split_nonempty(base, sep);
    let was = split(base, sep);
    if more.len() == 0 {
        assert(base + more =~= base);
        assert(was.last() + more =~= was.last());
        assert(was.update(was.len() - 1, was.last()) =~= was);
    } else {
        let front = more.drop_last();
        assert forall|i: int| 0 <= i < front.len() implies front[i] != sep by {
            assert(more.contains(more[i]));
        }
        lemma_split_append(base, front, sep);
        assert(more.contains(more.last()));
        let all = base + more;
        assert(all.drop_last() =~= base + front);
        assert(all.last() == more.last());
        let mid = split(base + front, sep);
        assert(mid.last() =~= was.last() + front);
        assert((was.last() + front).push(more.last()) =~= was.last() + more);
        assert(split(all, sep) =~= was.update(was.len() - 1, was.last() + more));
    }
}

/// Texts without the separator that are joined by it split back into themselves.
pub proof fn lemma_split_join(parts: Seq<Seq<char>>, sep: char)
    requires
        parts.len() > 0,
        forall|i: int| 0 <= i < parts.len() ==> !(#[trigger] parts[i]).contains(sep),
    ensures
        split(join(parts, seq![sep]), sep) == parts,
    decreases parts.len(),
{
    if parts.len() == 1 {
        lemma_split_append(Seq::empty(), parts[0], sep);
        assert(Seq::<char>::empty() + parts[0] =~= parts[0]);
        assert(split(parts[0], sep) =~= parts);
    } else {
        let front = parts.drop_last();
        let last = parts.last();
        assert(!parts[parts.len() - 1].contains(sep));
        lemma_split_join(front, sep);
        let base = join(front, seq![sep]) + seq![sep];
        assert(base.drop_last() =~= join(front, seq![sep]));
        assert(base.last() == sep);
        assert(split(base, sep) =~= front.push(Seq::empty()));
        lemma_split_append(base, last, sep);
        assert(join(parts, seq![sep]) =~= base + last);
        assert(split(base + last, sep) =~= parts);
    }
}

/// The strings in order with `sep` between each two.
pub fn join_texts(parts: &Vec<String>, sep: &str) -> (r: String)
    ensures
        r@ == join(texts(parts@), sep@),
{
    let mut r = String::new();
    let mut i: usize = 0;
    assert(texts(parts@).take(0) =~= Seq::<Seq<char>>::empty());
    while i < parts.len()
        invariant
            i <= parts.len(),
            r@ == join(texts(parts@).take(i as int), sep@),
        decreases parts.len() - i,
    {
        let ghost now = texts(parts@).take(i + 1);
        assert(now.drop_last() =~= texts(parts@).take(i as int));
        assert(now.last() == parts@[i as int]@);
        if i > 0 {
            r.append(sep);
        }
        r.append(parts[i].as_str());
        assert(i == 0 ==> r@ =~= parts@[0]@);
        i = i + 1;
    }
    assert(texts(parts@).take(parts@.len() as int) =~= texts(parts@));
    r
}

/// The character of a decimal digit.
pub open spec fn digit_char(n: nat) -> char {
    (48 + n) as char
}

/// The decimal form of a number.
pub open spec fn dec(n: nat) -> Seq<char>
    decreases n,
{
    if n < 10 {
        seq![digit_char(n)]
    } else {
        dec(n / 10).push(digit_char(n % 10))
    }
}

/// The decimal form of `n`.
pub fn dec_text(n: u64) -> (r: String)
    ensures
        r@ == dec(n as nat),
    decreases n,
{
    let mut r = if n < 10 {
        String::new()
    } else {
        dec_text(n / 10)
    };
    r.push((48u8 + (n % 10) as u8) as char);
    assert(r@ =~= dec(n as nat));
    r
}

/// The decimal form of a number, padded with a zero to two digits.
pub open spec fn two_digits(n: nat) -> Seq<char> {
    if n < 10 {
        seq!['0'] + dec(n)
    } else {
        dec(n)
    }
}

/// The decimal form of `n`, padded with a zero to two digits.
pub fn two_digit_text(n: u64) -> (r: String)
    ensures
        r@ == two_digits(n as nat),
{
    let digits = dec_text(n);
    if n < 10 {
        let mut r = String::new();
        r.push('0');
        r.append(digits.as_str());
        assert(r@ =~= two_digits(n as nat));
        r
    } else {
        digits
    }
}

/// The character of a hexadecimal digit, in lower case.
pub open spec fn hex_char(n: nat) -> char {
    if n < 10 {
        (48 + n) as char
    } else {
        (87 + n) as char
    }
}

/// The hexadecimal form of a number with at least `width` digits.
pub open spec fn hex(n: nat, width: nat) -> Seq<char>
    decreases n, width,
{
    if n < 16 && width <= 1 {
        seq![hex_char(n)]
    } else {
        hex(n / 16, if width > 0 { (width - 1) as nat } else { 0 }).push(hex_char(n % 16))
    }
}

/// The hexadecimal form of `n` with at least `width` digits.
pub fn hex_text(n: u64, width: u64) -> (r: String)
    ensures
        r@ == hex(n as nat, width as nat),
    decreases n, width,
{
    let mut r = if n < 16 && width <= 1 {
        String::new()
    } else {
        hex_text(n / 16, if width > 0 { width - 1 } else { 0 })
    };
    let d: u8 = (n % 16) as u8;
    if d < 10 {
        r.push((48u8 + d) as char);
    } else {
        r.push((87u8 + d) as char);
    }
    assert(r@ =~= hex(n as nat, width as nat));
    r
}

/// Whether every character is a decimal digit.
pub open spec fn all_digits(s: Seq<char>) -> bool {
    forall|i: int| 0 <= i < s.len() ==> '0' <= #[trigger] s[i] && s[i] <= '9'
}

/// The number that a row of decimal digits writes.
pub open spec fn digits_value(s: Seq<char>) -> nat
    decreases s.len(),
{
    if s.len() == 0 {
        0
    } else {
        digits_value(s.drop_last()) * 10 + (s.last() as int - 48) as nat
    }
}

/// The byte that a row of decimal digits writes: none where the row is empty, holds anything but
/// digits, or writes a number over 255.
pub open spec fn digits_u8(s: Seq<char>) -> Option<u8> {
    if s.len() > 0 && all_digits(s) && digits_value(s) <= 255 {
        Some(digits_value(s) as u8)
    } else {
        None
    }
}

proof fn lemma_digits_value_grows(s: Seq<char>, i: int)
    requires
        0 <= i <= s.len(),
    ensures
        digits_value(s.take(i)) <= digits_value(s),
    decreases s.len() - i,
{
    if i < s.len() {
        lemma_digits_value_grows(s, i + 1);
        assert(s.take(i + 1).drop_last() =~= s.take(i));
    } else {
        assert(s.take(i) =~= s);
    }
}

/// The byte that the characters from `from` on write.
pub fn digits_to_u8(s: &Vec<char>, from: usize) -> (r: Option<u8>)
    requires
        from <= s.len(),
    ensures
        r == digits_u8(s@.skip(from as int)),
{
    let ghost body = s@.skip(from as int);
    let mut i: usize = from;
    let mut value: u64 = 0;
    assert(body.take(0) =~= Seq::<char>::empty());
    while i < s.len()
        invariant
            from <= i <= s.len(),
            body == s@.skip(from as int),
            value <= 255,
            value == digits_value(body.take(i - from)),
            forall|j: int| 0 <= j < i - from ==> '0' <= #[trigger] body[j] && body[j] <= '9',
        decreases s.len() - i,
    {
        let c = s[i];
        assert(body[i - from] == c);
        if c < '0' || c > '9' {
            return None;
        }
        assert(body.take(i - from + 1).drop_last() =~= body.take(i - from));
        value = value * 10 + (c as u64 - 48);
        if value > 255 {
            proof {
                lemma_digits_value_grows(body, i - from + 1);
            }
            return None;
        }
        i = i + 1;
    }
    assert(body.take(body.len() as int) =~= body);
    if from == s.len() {
        None
    } else {
        Some(value as u8)
    }
}

/// The decimal form of a number holds only digits, begins with none but a digit, and writes that
/// number.
pub proof fn lemma_dec_reads_back(n: nat)
    ensures
        all_digits(dec(n)),
        dec(n).len() > 0,
        digits_value(dec(n)) == n,
    decreases n,
{
    if n < 10 {
        reveal_with_fuel(digits_value, 2);
        assert(dec(n).drop_last() =~= Seq::<char>::empty());
    } else {
        lemma_dec_reads_back(n / 10);
        assert(dec(n).drop_last() =~= dec(n / 10));
    }
}

/// Padding a number to two digits keeps what it writes.
pub proof fn lemma_two_digits_reads_back(n: nat)
    ensures
        all_digits(two_digits(n)),
        two_digits(n).len() >= 2,
        digits_value(two_digits(n)) == n,
        n <= 255 ==> digits_u8(two_digits(n)) == Some(n as u8),
{
    lemma_dec_reads_back(n);
    if n < 10 {
        let t = two_digits(n);
        assert(t =~= seq!['0', digit_char(n)]);
        assert(t.drop_last() =~= seq!['0']);
        assert(seq!['0'].drop_last() =~= Seq::<char>::empty());
        reveal_with_fuel(digits_value, 3);
    } else {
        lemma_dec_reads_back(n / 10);
    }
}

/// Whether text `a` comes before text `b` in dictionary order by code point.
pub open spec fn before(a: Seq<char>, b: Seq<char>) -> bool
    decreases a.len(),
{
    if b.len() == 0 {
        false
    } else if a.len() == 0 {
        true
    } else if a[0] != b[0] {
        a[0] < b[0]
    } else {
        before(a.skip(1), b.skip(1))
    }
}

/// Of two different texts exactly one comes before the other, and none comes before itself.
pub proof fn lemma_before_total(a: Seq<char>, b: Seq<char>)
    ensures
        a == b ==> !before(a, b),
        a != b ==> (before(a, b) <==> !before(b, a)),
    decreases a.len(),
{
    if a.len() > 0 && b.len() > 0 && a[0] == b[0] {
        lemma_before_total(a.skip(1), b.skip(1));
        if a.skip(1) == b.skip(1) {
            assert(a =~= seq![a[0]] + a.skip(1));
            assert(b =~= seq![b[0]] + b.skip(1));
        }
    } else if a.len() == 0 && b.len() == 0 {
        assert(a =~= b);
    }
}

/// Dictionary order is transitive.
pub proof fn lemma_before_transitive(a: Seq<char>, b: Seq<char>, c: Seq<char>)
    requires
        before(a, b),
        before(b, c),
    ensures
        before(a, c),
    decreases a.len(),
{
    if a.len() > 0 && b.len() > 0 && c.len() > 0 && a[0] == b[0] && b[0] == c[0] {
        lemma_before_transitive(a.skip(1), b.skip(1), c.skip(1));
    }
}

/// Whether text `a` comes before text `b`.
pub fn comes_before(a: &str, b: &str) -> (r: bool)
    ensures
        r == before(a@, b@),
{
    let x = chars_of(a);
    let y = chars_of(b);
    let mut i: usize = 0;
    assert(x@.skip(0) =~= x@);
    assert(y@.skip(0) =~= y@);
    while i < x.len() && i < y.len()
        invariant
            i <= x.len(),
            i <= y.len(),
            before(a@, b@) == before(x@.skip(i as int), y@.skip(i as int)),
        decreases x.len() - i,
    {
        assert(x@.skip(i as int).skip(1) =~= x@.skip(i + 1));
        assert(y@.skip(i as int).skip(1) =~= y@.skip(i + 1));
        if x[i] != y[i] {
            return x[i] < y[i];
        }
        i = i + 1;
    }
    i < y.len()
}

/// Whether the texts of a list come strictly one before the next, so that none occurs twice.
pub open spec fn ascending(s: Seq<Seq<char>>) -> bool {
    forall|i: int, j: int| 0 <= i < j < s.len() ==> before(#[trigger] s[i], #[trigger] s[j])
}

/// Two ascending lists of the same texts are one list.
pub proof fn lemma_ascending_is_unique(a: Seq<Seq<char>>, b: Seq<Seq<char>>)
    requires
        ascending(a),
        ascending(b),
        forall|s: Seq<char>| #[trigger] a.contains(s) <==> b.contains(s),
    ensures
        a == b,
    decreases a.len(),
{
    if a.len() == 0 {
        if b.len() > 0 {
            assert(b.contains(b[0]));
            assert(a.contains(b[0]));
        }
        assert(a =~= b);
    } else {
        assert(a.contains(a.last()));
        let at = b.index_of(a.last());
        assert(b[at] == a.last());
        assert(b.contains(b.last()));
        assert(a.contains(b.last()));
        let back = a.index_of(b.last());
        assert(a[back] == b.last());
        if at < b.len() - 1 {
            assert(before(b[at], b[b.len() - 1]));
            lemma_before_total(a.last(), b.last());
            if back < a.len() - 1 {
                assert(before(a[back], a[a.len() - 1]));
            }
        }
        assert(a.last() == b.last());
        let x = a.drop_last();
        let y = b.drop_last();
        assert forall|s: Seq<char>| #[trigger] x.contains(s) <==> y.contains(s) by {
            if x.contains(s) {
                let k = x.index_of(s);
                assert(a[k] == s);
                assert(before(a[k], a[a.len() - 1]));
                lemma_before_total(s, a.last());
                assert(a.contains(s));
                let m = b.index_of(s);
                assert(b[m] == s);
                assert(y[m] == s);
            }
            if y.contains(s) {
                let k = y.index_of(s);
                assert(b[k] == s);
                assert(before(b[k], b[b.len() - 1]));
                lemma_before_total(s, b.last());
                assert(b.contains(s));
                assert(a.contains(s));
                let m = a.index_of(s);
                assert(a[m] == s);
                assert(x[m] == s);
            }
        }
        lemma_ascending_is_unique(x, y);
        assert(a =~= x.push(a.last()));
        assert(b =~= y.push(b.last()));
    }
}

/// The first piece of a split is the text up to the first separator.
pub proof fn lemma_split_first(s: Seq<char>, sep: char)
    ensures
        split(s, sep).len() >= 1,
        !split(s, sep)[0].contains(sep),
        split(s, sep)[0].is_prefix_of(s),
        split(s, sep)[0] == s || s[split(s, sep)[0].len() as int] == sep,
        split(s, sep).len() == 1 ==> split(s, sep)[0] == s,
    decreases s.len(),
{
    if s.len() > 0 {
        let front = s.drop_last();
        lemma_split_first(front, sep);
        let was = split(front, sep);
        let now = split(s, sep);
        if s.last() == sep {
            assert(now[0] == was[0]);
            assert(was[0] =~= s.subrange(0, was[0].len() as int));
        } else if was.len() == 1 {
            assert(now[0] =~= s);
            assert forall|i: int| 0 <= i < s.len() implies s[i] != sep by {
                if i < front.len() {
                    assert(front.contains(front[i]));
                }
            }
        } else {
            assert(now[0] == was[0]);
            assert(was[0] =~= s.subrange(0, was[0].len() as int));
            if was[0] == front {
                lemma_pieces_of_whole(front, sep);
            }
        }
    }
}

/// A text without the separator is one piece.
proof fn lemma_pieces_of_whole(s: Seq<char>, sep: char)
    requires
        !s.contains(sep),
    ensures
        split(s, sep).len() == 1,
    decreases s.len(),
{
    if s.len() > 0 {
        assert(s.contains(s.last()));
        let front = s.drop_last();
        assert forall|i: int| 0 <= i < front.len() implies front[i] != sep by {
            assert(s.contains(s[i]));
        }
        lemma_pieces_of_whole(front, sep);
    }
}

/// The text without the white space it begins with.
pub open spec fn trim_start(s: Seq<char>) -> Seq<char>
    decreases s.len(),
{
    if s.len() > 0 && white_space(s[0]) {
        trim_start(s.skip(1))
    } else {
        s
    }
}

/// The text without the white space it ends with.
pub open spec fn trim_end(s: Seq<char>) -> Seq<char>
    decreases s.len(),
{
    if s.len() > 0 && white_space(s.last()) {
        trim_end(s.drop_last())
    } else {
        s
    }
}

/// The text without the white space at its two ends.
pub open spec fn trimmed(s: Seq<char>) -> Seq<char> {
    trim_end(trim_start(s))
}

/// Where the text after the leading white space begins.
fn text_start(v: &Vec<char>) -> (from: usize)
    ensures
        from <= v.len(),
        v@.skip(from as int) == trim_start(v@),
{
    let mut from: usize = 0;
    assert(v@.skip(0) =~= v@);
    while from < v.len()
        invariant
            from <= v.len(),
            trim_start(v@) == trim_start(v@.skip(from as int)),
        decreases v.len() - from,
    {
        assert(v@.skip(from as int).skip(1) =~= v@.skip(from + 1));
        assert(v@.skip(from as int)[0] == v@[from as int]);
        if !v[from].is_whitespace() {
            return from;
        }
        from = from + 1;
    }
    from
}

/// `s` without the white space at its two ends.
pub fn trim_text(s: &str) -> (r: String)
    ensures
        r@ == trimmed(s@),
{
    let v = chars_of(s);
    let from = text_start(&v);
    let mut to: usize = v.len();
    assert(v@.subrange(from as int, to as int) =~= v@.skip(from as int));
    while to > from
        invariant
            from <= to <= v.len(),
            trimmed(s@) == trim_end(v@.subrange(from as int, to as int)),
        decreases to - from,
    {
        let ghost now = v@.subrange(from as int, to as int);
        assert(now.drop_last() =~= v@.subrange(from as int, to - 1));
        assert(now.last() == v@[to - 1]);
        if !v[to - 1].is_whitespace() {
            return string_between(&v, from, to);
        }
        to = to - 1;
    }
    string_between(&v, from, to)
}

/// A copy of a list of strings.
pub fn copy_texts(v: &Vec<String>) -> (r: Vec<String>)
    ensures
        texts(r@) == texts(v@),
{
    let mut r: Vec<String> = Vec::new();
    let mut i: usize = 0;
    while i < v.len()
        invariant
            i <= v.len(),
            texts(r@) == texts(v@).take(i as int),
        decreases v.len() - i,
    {
        let ghost done = texts(r@);
        r.push(v[i].clone());
        assert(texts(r@) =~= done.push(v@[i as int]@));
        assert(texts(v@).take(i + 1) =~= texts(v@).take(i as int).push(v@[i as int]@));
        i = i + 1;
    }
    assert(texts(v@).take(v@.len() as int) =~= texts(v@));
    r
}

/// Whether one of the strings of a list has these characters.
pub fn list_has(v: &Vec<String>, s: &str) -> (r: bool)
    ensures
        r == texts(v@).contains(s@),
{
    let mut i: usize = 0;
    while i < v.len()
        invariant
            i <= v.len(),
            forall|j: int| 0 <= j < i ==> v@[j]@ != s@,
        decreases v.len() - i,
    {
        if same(v[i].as_str(), s) {
            assert(texts(v@)[i as int] == s@);
            return true;
        }
        i = i + 1;
    }
    false
}

/// Where a text stands, or would stand, in an ascending list: behind those that come before it.
pub fn place_in(v: &Vec<String>, s: &str) -> (at: usize)
    requires
        ascending(texts(v@)),
    ensures
        at <= v@.len(),
        forall|j: int| 0 <= j < at ==> before(#[trigger] v@[j]@, s@),
        forall|j: int| at <= j < v@.len() ==> !before(#[trigger] v@[j]@, s@),
{
    let mut lo: usize = 0;
    let mut hi: usize = v.len();
    while lo < hi
        invariant
            lo <= hi <= v.len(),
            ascending(texts(v@)),
            forall|j: int| 0 <= j < lo ==> before(#[trigger] v@[j]@, s@),
            forall|j: int| hi <= j < v@.len() ==> !before(#[trigger] v@[j]@, s@),
        decreases hi - lo,
    {
        let mid: usize = lo + (hi - lo) / 2;
        let ghost list = texts(v@);
        if comes_before(v[mid].as_str(), s) {
            assert forall|j: int| 0 <= j < mid + 1 implies before(#[trigger] v@[j]@, s@) by {
                if j < mid {
                    assert(before(list[j], list[mid as int]));
                    lemma_before_transitive(v@[j]@, v@[mid as int]@, s@);
                }
            }
            lo = mid + 1;
        } else {
            assert forall|j: int| mid <= j < v@.len() implies !before(#[trigger] v@[j]@, s@) by {
                if j > mid && before(v@[j]@, s@) {
                    assert(before(list[mid as int], list[j]));
                    lemma_before_transitive(v@[mid as int]@, v@[j]@, s@);
                }
            }
            hi = mid;
        }
    }
    lo
}

/// Whether an ascending list has a text.
pub fn ascending_has(v: &Vec<String>, s: &str) -> (r: bool)
    requires
        ascending(texts(v@)),
    ensures
        r == texts(v@).contains(s@),
{
    let at = place_in(v, s);
    if at < v.len() && same(v[at].as_str(), s) {
        assert(texts(v@)[at as int] == s@);
        true
    } else {
        proof {
            if texts(v@).contains(s@) {
                let k = texts(v@).index_of(s@);
                assert(v@[k]@ == s@);
                lemma_before_total(s@, s@);
                if at < k {
                    assert(before(texts(v@)[at as int], texts(v@)[k]));
                    assert(!before(v@[at as int]@, s@));
                }
            }
        }
        false
    }
}

/// Adds a text to an ascending list, at its place, unless the list has it.
pub fn insert_ascending(v: &mut Vec<String>, s: &str)
    requires
        ascending(texts(old(v)@)),
    ensures
        ascending(texts(final(v)@)),
        texts(final(v)@).to_set() == texts(old(v)@).to_set().insert(s@),
{
    let ghost was = texts(v@);
    let i: usize = place_in(v, s);
    if i < v.len() && same(v[i].as_str(), s) {
        assert(was[i as int] == s@);
        assert(was.to_set().insert(s@) =~= was.to_set());
        return;
    }
    let ghost at = i as int;
    assert forall|j: int| 0 <= j < at implies before(#[trigger] was[j], s@) by {
        assert(before(v@[j]@, s@));
    }
    if i < v.len() {
        assert(!before(v@[at]@, s@));
    }
    v.insert(i, s.to_owned());
    assert(texts(v@) =~= was.insert(at, s@));
    proof {
        lemma_ascending_insert(was, at, s@);
    }
}

/// A text put into an ascending list at its place keeps it ascending, and adds that text alone.
pub proof fn lemma_ascending_insert(was: Seq<Seq<char>>, at: int, s: Seq<char>)
    requires
        ascending(was),
        0 <= at <= was.len(),
        forall|j: int| 0 <= j < at ==> before(#[trigger] was[j], s),
        at < was.len() ==> !before(was[at], s) && was[at] != s,
    ensures
        ascending(was.insert(at, s)),
        was.insert(at, s).to_set() == was.to_set().insert(s),
        !was.contains(s),
{
    let now = was.insert(at, s);
    if at < was.len() {
        lemma_before_total(was[at], s);
    }
    assert forall|p: int, q: int| 0 <= p < q < now.len() implies before(
        #[trigger] now[p],
        #[trigger] now[q],
    ) by {
        if p == at {
            lemma_before_total(was[at], s);
            if q > at + 1 {
                lemma_before_transitive(s, was[at], was[q - 1]);
            }
        }
    }
    assert forall|t: Seq<char>| now.to_set().contains(t) <==> was.to_set().insert(s).contains(
        t,
    ) by {
        if was.contains(t) {
            let k = was.index_of(t);
            assert(now[if k < at { k } else { k + 1 }] == t);
        }
        if t == s {
            assert(now[at] == t);
        }
        if now.contains(t) && t != s {
            let k = now.index_of(t);
            assert(was[if k < at { k } else { k - 1 }] == t);
        }
    }
    assert(now.to_set() =~= was.to_set().insert(s));
    if was.contains(s) {
        let k = was.index_of(s);
        lemma_before_total(s, s);
        if k < at {
            assert(before(was[k], s));
        } else if k > at {
            assert(before(was[at], was[k]));
        }
    }
}

/// Dictionary order: of two texts that differ first in one place, the one with the smaller character
/// there comes first; and a text comes before every longer one that begins with it.
pub proof fn law_the_first_difference_orders_texts(a: Seq<char>, b: Seq<char>, k: int)
    requires
        0 <= k <= a.len(),
        k < b.len(),
        a.take(k) == b.take(k),
    ensures
        k < a.len() && a[k] < b[k] ==> before(a, b) && !before(b, a),
        k == a.len() ==> before(a, b) && !before(b, a),
    decreases k,
{
    if k > 0 {
        assert(a[0] == a.take(k)[0] && b[0] == b.take(k)[0]);
        assert(a.skip(1).take(k - 1) =~= a.take(k).skip(1));
        assert(b.skip(1).take(k - 1) =~= b.take(k).skip(1));
        law_the_first_difference_orders_texts(a.skip(1), b.skip(1), k - 1);
        if k < a.len() {
            assert(a.skip(1)[k - 1] == a[k]);
            assert(b.skip(1)[k - 1] == b[k]);
        }
    }
}

/// Lowering a text changes its capital letters alone, each to the small letter thirty-two places on,
/// and lowering it again changes nothing.
pub proof fn law_lowering_changes_capitals_alone(s: Seq<char>, i: int)
    requires
        0 <= i < s.len(),
    ensures
        ascii_lower(s).len() == s.len(),
        65 <= s[i] as int <= 90 ==> ascii_lower(s)[i] as int == s[i] as int + 32,
        !(65 <= s[i] as int <= 90) ==> ascii_lower(s)[i] == s[i],
        ascii_lower(ascii_lower(s)) == ascii_lower(s),
{
    assert forall|k: int| 0 <= k < s.len() implies lower_char(lower_char(s[k])) == lower_char(
        s[k],
    ) by {}
    assert(ascii_lower(ascii_lower(s)) =~= ascii_lower(s));
}

proof fn lemma_trim_start(s: Seq<char>)
    ensures
        ({
            let rest = trim_start(s);
            &&& rest.len() <= s.len()
            &&& rest == s.skip(s.len() - rest.len())
            &&& rest.len() > 0 ==> !white_space(rest[0])
            &&& forall|i: int| 0 <= i < s.len() - rest.len() ==> white_space(#[trigger] s[i])
        }),
    decreases s.len(),
{
    if s.len() > 0 && white_space(s[0]) {
        lemma_trim_start(s.skip(1));
        let rest = trim_start(s);
        assert(s.skip(1).skip(s.len() - 1 - rest.len()) =~= s.skip(s.len() - rest.len()));
        assert forall|i: int| 0 <= i < s.len() - rest.len() implies white_space(
            #[trigger] s[i],
        ) by {
            if i > 0 {
                assert(s.skip(1)[i - 1] == s[i]);
            }
        }
    } else {
        assert(s =~= s.skip(0));
    }
}

proof fn lemma_trim_end(s: Seq<char>)
    ensures
        ({
            let rest = trim_end(s);
            &&& rest.len() <= s.len()
            &&& rest == s.take(rest.len() as int)
            &&& rest.len() > 0 ==> !white_space(rest.last())
            &&& forall|i: int| rest.len() <= i < s.len() ==> white_space(#[trigger] s[i])
        }),
    decreases s.len(),
{
    if s.len() > 0 && white_space(s.last()) {
        lemma_trim_end(s.drop_last());
        let rest = trim_end(s);
        assert(s.drop_last().take(rest.len() as int) =~= s.take(rest.len() as int));
        assert forall|i: int| rest.len() <= i < s.len() implies white_space(#[trigger] s[i]) by {
            if i < s.len() - 1 {
                assert(s.drop_last()[i] == s[i]);
            }
        }
    } else {
        assert(s =~= s.take(s.len() as int));
    }
}

/// A trimmed text is a stretch of the text with no white space at either end, and nothing but white
/// space was left out on either side of it.
pub proof fn law_trimming_takes_white_space_alone(s: Seq<char>)
    ensures
        ({
            let t = trimmed(s);
            let from = s.len() - trim_start(s).len();
            &&& 0 <= from && from + t.len() <= s.len()
            &&& t == s.subrange(from, from + t.len())
            &&& t.len() > 0 ==> !white_space(t[0]) && !white_space(t.last())
            &&& forall|i: int|
                0 <= i < from || from + t.len() <= i < s.len() ==> white_space(#[trigger] s[i])
        }),
{
    lemma_trim_start(s);
    let mid = trim_start(s);
    lemma_trim_end(mid);
    let t = trimmed(s);
    let from = s.len() - mid.len();
    assert(t =~= s.subrange(from, from + t.len()));
    assert forall|i: int| from + t.len() <= i < s.len() implies white_space(#[trigger] s[i]) by {
        assert(mid[i - from] == s[i]);
    }
    if t.len() > 0 {
        assert(t[0] == mid[0]);
    }
}

/// The number that a row of hexadecimal digits writes.
pub open spec fn hex_value(s: Seq<char>) -> nat
    decreases s.len(),
{
    if s.len() == 0 {
        0
    } else {
        let c = s.last() as int;
        hex_value(s.drop_last()) * 16 + (if c >= 97 {
            c - 87
        } else {
            c - 48
        }) as nat
    }
}

/// The hexadecimal form of a number writes that number, in small letters, with as many digits as
/// were asked for.
pub proof fn law_hexadecimal_reads_back(n: nat, width: nat)
    ensures
        hex_value(hex(n, width)) == n,
        hex(n, width).len() >= width,
        hex(n, width).len() >= 1,
        forall|i: int|
            0 <= i < hex(n, width).len() ==> ('0' <= #[trigger] hex(n, width)[i] && hex(n, width)[i]
                <= '9') || ('a' <= hex(n, width)[i] && hex(n, width)[i] <= 'f'),
    decreases n, width,
{
    if n < 16 && width <= 1 {
        reveal_with_fuel(hex_value, 2);
        assert(hex(n, width).drop_last() =~= Seq::<char>::empty());
    } else {
        let less = if width > 0 {
            (width - 1) as nat
        } else {
            0
        };
        law_hexadecimal_reads_back(n / 16, less);
        assert(hex(n, width).drop_last() =~= hex(n / 16, less));
        assert forall|i: int| 0 <= i < hex(n, width).len() implies ('0' <= #[trigger] hex(
            n,
            width,
        )[i] && hex(n, width)[i] <= '9') || ('a' <= hex(n, width)[i] && hex(n, width)[i] <= 'f') by {
            if i < hex(n, width).len() - 1 {
                assert(hex(n, width)[i] == hex(n / 16, less)[i]);
            }
        }
    }
}

/// Whether `r` is the first text of a list whose flag is set; none where no flag is.
pub open spec fn picks_first(list: Seq<String>, flags: Seq<bool>, r: Option<String>) -> bool {
    match r {
        Some(text) => exists|i: int|
            0 <= i < list.len() && #[trigger] flags[i] && list[i]@ == text@ && forall|j: int|
                0 <= j < i ==> !#[trigger] flags[j],
        None => forall|i: int| 0 <= i < list.len() ==> !#[trigger] flags[i],
    }
}

/// The first text whose flag is set is the one that has none set before it.
pub proof fn lemma_picks_first(list: Seq<String>, flags: Seq<bool>, r: Option<String>, at: int)
    requires
        picks_first(list, flags, r),
        0 <= at < list.len(),
        flags[at],
        forall|j: int| 0 <= j < at ==> !#[trigger] flags[j],
    ensures
        r is Some,
        r->0@ == list[at]@,
{
    if r is Some {
        let i = choose|i: int|
            0 <= i < list.len() && #[trigger] flags[i] && list[i]@ == r->0@ && forall|j: int|
                0 <= j < i ==> !#[trigger] flags[j];
        if at < i {
            assert(!flags[at]);
        }
        if i < at {
            assert(!flags[i]);
        }
        assert(i == at);
    }
}

} // verus!
