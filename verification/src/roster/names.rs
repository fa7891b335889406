//! Character display names, written as an override of the game's message table: an XML document
//! in UTF-16 that names exactly the entries it changes.

use vstd::prelude::*;
use vstd::string::*;

use crate::paths::{join_path, joined};
use crate::text::{
    ascii_lower, chars_of, digits_u8, ends_with, law_lowering_changes_capitals_alone,
    lemma_two_digits_reads_back, occurs_at, starts_with, to_ascii_lower, two_digit_text, two_digits,
    unicode_upper, uppercase,
};

verus! {

/// Where the override stands in a mod folder.
pub const XMSBT_PATH: &'static str = "ui/message/msg_name.xmsbt";

/// The label and the text of each entry of a list.
pub open spec fn label_texts(labels: Seq<(String, String)>) -> Seq<(Seq<char>, Seq<char>)> {
    labels.map_values(|e: (String, String)| (e.0@, e.1@))
}

/// The message label of a kind, a slot and a character.
pub open spec fn label(kind: Seq<char>, slot: u8, name_id: Seq<char>) -> Seq<char> {
    kind + two_digits(slot as nat) + "_"@ + ascii_lower(name_id)
}

fn label_text(kind: &str, slot: u8, name_id: &str) -> (r: String)
    ensures
        r@ == label(kind@, slot, name_id@),
{
    let mut r = kind.to_owned();
    let digits = two_digit_text(slot as u64);
    r.append(digits.as_str());
    r.append("_");
    let lower = to_ascii_lower(name_id);
    r.append(lower.as_str());
    r
}

/// One character's name for one costume slot. Names go by slot, so a slot can carry a name of its
/// own while the donor keeps its.
#[derive(Debug, Clone, PartialEq, Eq)]
pub struct NameOverride {
    /// The row of the character database.
    pub name_id: String,
    pub slot: u8,
    pub display: String,
}

impl NameOverride {
    /// The labels that the override writes, each with its text. The third is in upper case, as the
    /// game's own table has it.
    pub fn labels(&self) -> (r: Vec<(String, String)>)
        ensures
            label_texts(r@) == seq![
                (label("nam_chr0_"@, self.slot, self.name_id@), self.display@),
                (label("nam_chr1_"@, self.slot, self.name_id@), self.display@),
                (label("nam_chr2_"@, self.slot, self.name_id@), unicode_upper(self.display@)),
            ],
    {
        let mut r: Vec<(String, String)> = Vec::new();
        let name_id = self.name_id.as_str();
        r.push((label_text("nam_chr0_", self.slot, name_id), self.display.clone()));
        r.push((label_text("nam_chr1_", self.slot, name_id), self.display.clone()));
        r.push((label_text("nam_chr2_", self.slot, name_id), uppercase(self.display.as_str())));
        r
    }
}

/// One character's names for one costume slot, each label by itself.
#[derive(Debug, Clone, PartialEq, Eq)]
pub struct DetailedNameOverride {
    pub name_id: String,
    pub slot: u8,
    pub chr0: Option<String>,
    pub chr1: Option<String>,
    pub chr2: Option<String>,
    /// The name for a label that has none of its own.
    pub fallback: Option<String>,
}

/// A name, or else another.
pub open spec fn or_else(a: Option<String>, b: Option<String>) -> Option<Seq<char>> {
    match (a, b) {
        (Some(text), _) => Some(text@),
        (None, Some(text)) => Some(text@),
        _ => None,
    }
}

/// An entry, where there is a text for it.
pub open spec fn entry(label: Seq<char>, text: Option<Seq<char>>) -> Seq<(Seq<char>, Seq<char>)> {
    match text {
        Some(text) => seq![(label, text)],
        None => Seq::empty(),
    }
}

impl DetailedNameOverride {
    /// The text of the third label: its own as it is, else the fallback in upper case.
    pub open spec fn upper_text(&self) -> Option<Seq<char>> {
        match (self.chr2, self.fallback) {
            (Some(text), _) => Some(text@),
            (None, Some(text)) => Some(unicode_upper(text@)),
            _ => None,
        }
    }

    /// The labels that the override writes, each with its text. A label without a text is left to
    /// the base file.
    pub fn labels(&self) -> (r: Vec<(String, String)>)
        ensures
            label_texts(r@) == entry(
                label("nam_chr0_"@, self.slot, self.name_id@),
                or_else(self.chr0, self.fallback),
            ) + entry(
                label("nam_chr1_"@, self.slot, self.name_id@),
                or_else(self.chr1, self.fallback),
            ) + entry(label("nam_chr2_"@, self.slot, self.name_id@), self.upper_text()),
    {
        let name_id = self.name_id.as_str();
        let mut r: Vec<(String, String)> = Vec::new();
        if let Some(text) = either(&self.chr0, &self.fallback) {
            r.push((label_text("nam_chr0_", self.slot, name_id), text));
        }
        let ghost first = entry(
            label("nam_chr0_"@, self.slot, self.name_id@),
            or_else(self.chr0, self.fallback),
        );
        assert(label_texts(r@) =~= first);
        if let Some(text) = either(&self.chr1, &self.fallback) {
            r.push((label_text("nam_chr1_", self.slot, name_id), text));
        }
        let ghost second = entry(
            label("nam_chr1_"@, self.slot, self.name_id@),
            or_else(self.chr1, self.fallback),
        );
        assert(label_texts(r@) =~= first + second);
        let third = match &self.chr2 {
            Some(text) => Some(text.clone()),
            None => match &self.fallback {
                Some(text) => Some(uppercase(text.as_str())),
                None => None,
            },
        };
        if let Some(text) = third {
            r.push((label_text("nam_chr2_", self.slot, name_id), text));
        }
        assert(label_texts(r@) =~= first + second + entry(
            label("nam_chr2_"@, self.slot, self.name_id@),
            self.upper_text(),
        ));
        r
    }
}

fn either(a: &Option<String>, b: &Option<String>) -> (r: Option<String>)
    ensures
        match r {
            Some(text) => or_else(*a, *b) == Some(text@),
            None => or_else(*a, *b) is None,
        },
{
    match a {
        Some(text) => Some(text.clone()),
        None => match b {
            Some(text) => Some(text.clone()),
            None => None,
        },
    }
}

/// A character as it is written in XML text.
pub open spec fn escaped_char(c: char) -> Seq<char> {
    if c == '&' {
        "&amp;"@
    } else if c == '<' {
        "&lt;"@
    } else if c == '>' {
        "&gt;"@
    } else if c == '"' {
        "&quot;"@
    } else if c == '\'' {
        "&apos;"@
    } else {
        seq![c]
    }
}

/// A text as it is written in XML text.
pub open spec fn escaped(s: Seq<char>) -> Seq<char>
    decreases s.len(),
{
    if s.len() == 0 {
        Seq::empty()
    } else {
        escaped(s.drop_last()) + escaped_char(s.last())
    }
}

/// A text as it is written in XML text.
pub fn escape(text: &str) -> (r: String)
    ensures
        r@ == escaped(text@),
{
    let v = chars_of(text);
    let mut r = String::new();
    let mut i: usize = 0;
    assert(v@.take(0) =~= Seq::empty());
    while i < v.len()
        invariant
            i <= v.len(),
            r@ == escaped(v@.take(i as int)),
        decreases v.len() - i,
    {
        let ghost was = r@;
        assert(v@.take(i + 1).drop_last() =~= v@.take(i as int));
        let c = v[i];
        if c == '&' {
            r.append("&amp;");
        } else if c == '<' {
            r.append("&lt;");
        } else if c == '>' {
            r.append("&gt;");
        } else if c == '"' {
            r.append("&quot;");
        } else if c == '\'' {
            r.append("&apos;");
        } else {
            r.push(c);
            assert(r@ =~= was + seq![c]);
        }
        i = i + 1;
    }
    assert(v@.take(v@.len() as int) =~= v@);
    r
}

/// The UTF-16 units of a character: one, or a pair of surrogates.
pub open spec fn utf16_units(c: char) -> Seq<int> {
    let n = c as int;
    if n < 0x1_0000 {
        seq![n]
    } else {
        seq![0xd800 + (n - 0x1_0000) / 0x400, 0xdc00 + (n - 0x1_0000) % 0x400]
    }
}

/// The two bytes of a unit, the low one first.
pub open spec fn unit_bytes(unit: int) -> Seq<u8> {
    seq![(unit % 256) as u8, (unit / 256) as u8]
}

/// The bytes of a character in UTF-16, the low byte of a unit first.
pub open spec fn char_bytes(c: char) -> Seq<u8> {
    let units = utf16_units(c);
    if units.len() == 1 {
        unit_bytes(units[0])
    } else {
        unit_bytes(units[0]) + unit_bytes(units[1])
    }
}

/// The bytes of a text in UTF-16, the low byte of a unit first.
pub open spec fn utf16_bytes(s: Seq<char>) -> Seq<u8>
    decreases s.len(),
{
    if s.len() == 0 {
        Seq::empty()
    } else {
        utf16_bytes(s.drop_last()) + char_bytes(s.last())
    }
}

fn push_unit(out: &mut Vec<u8>, unit: u32)
    requires
        unit < 0x1_0000,
    ensures
        final(out)@ == old(out)@ + unit_bytes(unit as int),
{
    let ghost was = out@;
    out.push((unit % 256) as u8);
    out.push((unit / 256) as u8);
    assert(out@ =~= was + unit_bytes(unit as int));
}

fn push_char(out: &mut Vec<u8>, c: char)
    ensures
        final(out)@ == old(out)@ + char_bytes(c),
{
    let ghost was = out@;
    let n: u32 = c as u32;
    if n < 0x1_0000 {
        push_unit(out, n);
    } else {
        push_unit(out, 0xd800 + (n - 0x1_0000) / 0x400);
        push_unit(out, 0xdc00 + (n - 0x1_0000) % 0x400);
    }
    assert(out@ =~= was + char_bytes(c));
}

/// A text in UTF-16 with a byte order mark, the low byte first.
pub fn to_utf16le_with_bom(text: &str) -> (out: Vec<u8>)
    ensures
        out@ == seq![0xffu8, 0xfeu8] + utf16_bytes(text@),
{
    let v = chars_of(text);
    let mut out: Vec<u8> = Vec::new();
    out.push(0xff);
    out.push(0xfe);
    let mut i: usize = 0;
    assert(v@.take(0) =~= Seq::empty());
    assert(out@ =~= seq![0xffu8, 0xfeu8] + utf16_bytes(v@.take(0)));
    while i < v.len()
        invariant
            i <= v.len(),
            out@ == seq![0xffu8, 0xfeu8] + utf16_bytes(v@.take(i as int)),
        decreases v.len() - i,
    {
        assert(v@.take(i + 1).drop_last() =~= v@.take(i as int));
        push_char(&mut out, v[i]);
        assert(out@ =~= seq![0xffu8, 0xfeu8] + utf16_bytes(v@.take(i + 1)));
        i = i + 1;
    }
    assert(v@.take(v@.len() as int) =~= v@);
    out
}

/// One entry of the document.
pub open spec fn entry_xml(label: Seq<char>, text: Seq<char>) -> Seq<char> {
    "  <entry label=\""@ + escaped(label) + "\">\n    <text>"@ + escaped(text)
        + "</text>\n  </entry>\n"@
}

/// The entries of the document.
pub open spec fn entries_xml(labels: Seq<(Seq<char>, Seq<char>)>) -> Seq<char>
    decreases labels.len(),
{
    if labels.len() == 0 {
        Seq::empty()
    } else {
        entries_xml(labels.drop_last()) + entry_xml(labels.last().0, labels.last().1)
    }
}

/// The document.
pub open spec fn document(labels: Seq<(Seq<char>, Seq<char>)>) -> Seq<char> {
    "<?xml version=\"1.0\" encoding=\"utf-16\"?>\n<xmsbt>\n"@ + entries_xml(labels)
        + "</xmsbt>\n"@
}

/// The document for some labels; none where there is nothing to write, for an empty override is
/// not harmless.
pub fn render_xmsbt_from_labels(labels: &[(String, String)]) -> (r: Option<Vec<u8>>)
    ensures
        match r {
            Some(bytes) => labels@.len() > 0 && bytes@ == seq![0xffu8, 0xfeu8] + utf16_bytes(
                document(label_texts(labels@)),
            ),
            None => labels@.len() == 0,
        },
{
    if labels.len() == 0 {
        return None;
    }
    let mut xml = "<?xml version=\"1.0\" encoding=\"utf-16\"?>\n<xmsbt>\n".to_owned();
    let ghost start = xml@;
    let ghost all = label_texts(labels@);
    let mut i: usize = 0;
    assert(all.take(0) =~= Seq::empty());
    assert(xml@ =~= start + entries_xml(all.take(0)));
    while i < labels.len()
        invariant
            i <= labels.len(),
            all == label_texts(labels@),
            xml@ == start + entries_xml(all.take(i as int)),
        decreases labels.len() - i,
    {
        let ghost was = xml@;
        assert(all.take(i + 1).drop_last() =~= all.take(i as int));
        let name = escape(labels[i].0.as_str());
        let text = escape(labels[i].1.as_str());
        xml.append("  <entry label=\"");
        xml.append(name.as_str());
        xml.append("\">\n    <text>");
        xml.append(text.as_str());
        xml.append("</text>\n  </entry>\n");
        assert(all.take(i + 1).last() == (labels@[i as int].0@, labels@[i as int].1@));
        assert(xml@ =~= was + entry_xml(labels@[i as int].0@, labels@[i as int].1@));
        assert(xml@ =~= start + entries_xml(all.take(i + 1)));
        i = i + 1;
    }
    assert(all.take(all.len() as int) =~= all);
    xml.append("</xmsbt>\n");
    Some(to_utf16le_with_bom(xml.as_str()))
}

/// What to do with the override in a mod folder: where it stands, and its bytes, or nothing where
/// one that is there is stale and has to go.
pub fn write_xmsbt_labels(mod_root: &str, labels: &[(String, String)]) -> (r: (
    String,
    Option<Vec<u8>>,
))
    ensures
        r.0@ == joined(mod_root@, XMSBT_PATH@),
        match r.1 {
            Some(bytes) => labels@.len() > 0 && bytes@ == seq![0xffu8, 0xfeu8] + utf16_bytes(
                document(label_texts(labels@)),
            ),
            None => labels@.len() == 0,
        },
{
    (join_path(mod_root, XMSBT_PATH), render_xmsbt_from_labels(labels))
}

/// Whether a text stands at a place as one of the five entities.
pub open spec fn entity_at(s: Seq<char>, i: int) -> bool {
    occurs_at(s, "&amp;"@, i) || occurs_at(s, "&lt;"@, i) || occurs_at(s, "&gt;"@, i) || occurs_at(
        s,
        "&quot;"@,
        i,
    ) || occurs_at(s, "&apos;"@, i)
}

/// An escaped text holds no character that would end it or begin a tag, and every `&` in it begins
/// an entity.
pub proof fn law_escaped_text_is_plain(s: Seq<char>)
    ensures
        forall|i: int|
            0 <= i < escaped(s).len() ==> #[trigger] escaped(s)[i] != '<' && escaped(s)[i] != '>'
                && escaped(s)[i] != '"' && escaped(s)[i] != '\'',
        forall|i: int|
            0 <= i < escaped(s).len() && #[trigger] escaped(s)[i] == '&' ==> entity_at(
                escaped(s),
                i,
            ),
    decreases s.len(),
{
    if s.len() > 0 {
        reveal_strlit("&amp;");
        reveal_strlit("&lt;");
        reveal_strlit("&gt;");
        reveal_strlit("&quot;");
        reveal_strlit("&apos;");
        let front = escaped(s.drop_last());
        let tail = escaped_char(s.last());
        let all = escaped(s);
        law_escaped_text_is_plain(s.drop_last());
        assert forall|i: int| 0 <= i < all.len() && #[trigger] all[i] == '&' implies entity_at(
            all,
            i,
        ) by {
            if i < front.len() {
                assert(front[i] == '&');
                assert(entity_at(front, i));
                assert forall|p: Seq<char>| #[trigger] occurs_at(front, p, i) implies occurs_at(
                    all,
                    p,
                    i,
                ) by {
                    assert(all.subrange(i, i + p.len()) =~= front.subrange(i, i + p.len()));
                }
            } else {
                assert(tail[i - front.len()] == '&');
                assert(i == front.len());
                assert(all.subrange(i, i + tail.len()) =~= tail);
            }
        }
        assert forall|i: int| 0 <= i < all.len() implies #[trigger] all[i] != '<' && all[i] != '>'
            && all[i] != '"' && all[i] != '\'' by {
            if i < front.len() {
                assert(all[i] == front[i]);
            } else {
                assert(all[i] == tail[i - front.len()]);
            }
        }
    }
}

proof fn lemma_char_bytes_tell(a: char, b: char, x: Seq<u8>, y: Seq<u8>)
    requires
        x + char_bytes(a) == y + char_bytes(b),
    ensures
        a == b,
        x == y,
{
    let s = x + char_bytes(a);
    let t = y + char_bytes(b);
    let p = char_bytes(a);
    let q = char_bytes(b);
    let m = a as int;
    let n = b as int;
    assert(m < 0xd800 || 0xe000 <= m <= 0x10ffff);
    assert(n < 0xd800 || 0xe000 <= n <= 0x10ffff);
    assert(s[s.len() - 1] == p[p.len() - 1]);
    assert(s[s.len() - 2] == p[p.len() - 2]);
    assert(t[t.len() - 1] == q[q.len() - 1]);
    assert(t[t.len() - 2] == q[q.len() - 2]);
    if p.len() == 4 && q.len() == 4 {
        assert(s[s.len() - 3] == p[1]);
        assert(s[s.len() - 4] == p[0]);
        assert(t[t.len() - 3] == q[1]);
        assert(t[t.len() - 4] == q[0]);
    }
    assert(a == b);
    assert(x =~= s.take(s.len() - p.len()));
    assert(y =~= t.take(t.len() - q.len()));
}

/// Two texts with the same bytes in UTF-16 are the same text, so nothing is lost.
pub proof fn law_utf16_loses_nothing(a: Seq<char>, b: Seq<char>)
    requires
        utf16_bytes(a) == utf16_bytes(b),
    ensures
        a == b,
    decreases a.len(),
{
    if a.len() == 0 || b.len() == 0 {
        if b.len() > 0 {
            assert(utf16_bytes(b).len() > 0);
        }
        if a.len() > 0 {
            assert(utf16_bytes(a).len() > 0);
        }
        assert(a =~= b);
    } else {
        lemma_char_bytes_tell(
            a.last(),
            b.last(),
            utf16_bytes(a.drop_last()),
            utf16_bytes(b.drop_last()),
        );
        law_utf16_loses_nothing(a.drop_last(), b.drop_last());
        assert(a =~= a.drop_last().push(a.last()));
        assert(b =~= b.drop_last().push(b.last()));
    }
}

/// A label names its character in lower case behind a kind and the number of a costume, so that two
/// costumes of one character have labels of their own.
pub proof fn law_labels_of_slots_differ(kind: Seq<char>, a: u8, b: u8, name_id: Seq<char>)
    requires
        a != b,
    ensures
        label(kind, a, name_id) != label(kind, b, name_id),
        label(kind, a, ascii_lower(name_id)) == label(kind, a, name_id),
        starts_with(label(kind, a, name_id), kind),
        ends_with(label(kind, a, name_id), seq!['_'] + ascii_lower(name_id)),
        digits_u8(
            label(kind, a, name_id).subrange(
                kind.len() as int,
                label(kind, a, name_id).len() - 1 - name_id.len(),
            ),
        ) == Some(a),
{
    reveal_strlit("_");
    let x = label(kind, a, name_id);
    let y = label(kind, b, name_id);
    lemma_two_digits_reads_back(a as nat);
    lemma_two_digits_reads_back(b as nat);
    assert(ascii_lower(ascii_lower(name_id)) =~= ascii_lower(name_id)) by {
        if name_id.len() > 0 {
            law_lowering_changes_capitals_alone(name_id, 0);
        }
    }
    let from = kind.len() as int;
    assert(x.subrange(from, x.len() - 1 - name_id.len()) =~= two_digits(a as nat));
    assert(y.subrange(from, y.len() - 1 - name_id.len()) =~= two_digits(b as nat));
    assert(x.subrange(0, from) =~= kind);
    let tail = seq!['_'] + ascii_lower(name_id);
    assert(x.subrange(x.len() - tail.len(), x.len() as int) =~= tail);
}

/// A name of its own is taken before another, and the fallback of the third label is written in
/// upper case while its own is written as it is.
pub proof fn law_a_name_of_its_own_comes_first(names: DetailedNameOverride)
    ensures
        names.chr2 is Some ==> names.upper_text() == Some(names.chr2->0@),
        names.chr2 is None && names.fallback is Some ==> names.upper_text() == Some(
            unicode_upper(names.fallback->0@),
        ),
        names.chr2 is None && names.fallback is None ==> names.upper_text() is None,
        forall|a: Option<String>, b: Option<String>|
            #![trigger or_else(a, b)]
            (a is Some ==> or_else(a, b) == Some(a->0@)) && (a is None && b is Some ==> or_else(
                a,
                b,
            ) == Some(b->0@)) && (a is None && b is None ==> or_else(a, b) is None),
{
}

/// Escaping goes character by character: the five marks of XML are named, and every other character
/// stays.
pub proof fn law_each_mark_is_named(a: Seq<char>, b: Seq<char>, c: char)
    ensures
        escaped(a + b) == escaped(a) + escaped(b),
        escaped(seq!['&']) == seq!['&', 'a', 'm', 'p', ';'],
        escaped(seq!['<']) == seq!['&', 'l', 't', ';'],
        escaped(seq!['>']) == seq!['&', 'g', 't', ';'],
        escaped(seq!['"']) == seq!['&', 'q', 'u', 'o', 't', ';'],
        escaped(seq!['\'']) == seq!['&', 'a', 'p', 'o', 's', ';'],
        c != '&' && c != '<' && c != '>' && c != '"' && c != '\'' ==> escaped(seq![c]) == seq![c],
    decreases b.len(),
{
    if b.len() == 0 {
        assert(a + b =~= a);
        assert(escaped(a) + escaped(b) =~= escaped(a));
    } else {
        law_each_mark_is_named(a, b.drop_last(), c);
        assert((a + b).drop_last() =~= a + b.drop_last());
        assert(escaped(a + b) =~= escaped(a) + escaped(b));
    }
    reveal_strlit("&amp;");
    reveal_strlit("&lt;");
    reveal_strlit("&gt;");
    reveal_strlit("&quot;");
    reveal_strlit("&apos;");
    lemma_escaped_alone('&');
    lemma_escaped_alone('<');
    lemma_escaped_alone('>');
    lemma_escaped_alone('"');
    lemma_escaped_alone('\'');
    lemma_escaped_alone(c);
    assert("&amp;"@ =~= seq!['&', 'a', 'm', 'p', ';']);
    assert("&lt;"@ =~= seq!['&', 'l', 't', ';']);
    assert("&gt;"@ =~= seq!['&', 'g', 't', ';']);
    assert("&quot;"@ =~= seq!['&', 'q', 'u', 'o', 't', ';']);
    assert("&apos;"@ =~= seq!['&', 'a', 'p', 'o', 's', ';']);
}

proof fn lemma_escaped_alone(c: char)
    ensures
        escaped(seq![c]) == escaped_char(c),
{
    reveal_with_fuel(escaped, 2);
    assert(seq![c].drop_last() =~= Seq::empty());
    assert(escaped(seq![c]) =~= escaped_char(c));
}

/// The bytes of a character are its number where sixteen bits hold it, the low byte first; else its
/// number less 65536 in two halves of ten bits, the upper half first, each marked as such.
pub proof fn law_utf16_writes_the_number_of_a_character(c: char)
    ensures
        ({
            let n = c as int;
            let bytes = char_bytes(c);
            &&& n < 65536 ==> bytes.len() == 2 && bytes[0] + 256 * bytes[1] == n
            &&& n >= 65536 ==> bytes.len() == 4 && 0xd800 <= bytes[0] + 256 * bytes[1] < 0xdc00
                && 0xdc00 <= bytes[2] + 256 * bytes[3] < 0xe000 && (bytes[0] + 256 * bytes[1]
                - 0xd800) * 1024 + (bytes[2] + 256 * bytes[3] - 0xdc00) + 65536 == n
        }),
{
    let n = c as int;
    if n >= 0x1_0000 {
        let m = n - 0x1_0000;
        assert(m == m / 0x400 * 0x400 + m % 0x400);
        assert(0 <= m / 0x400 < 0x400);
    }
}

/// The bytes of a text are those of its characters, one behind the other.
pub proof fn law_utf16_goes_character_by_character(a: Seq<char>, b: Seq<char>)
    ensures
        utf16_bytes(a + b) == utf16_bytes(a) + utf16_bytes(b),
        a.len() == 1 ==> utf16_bytes(a) == char_bytes(a[0]),
    decreases b.len(),
{
    if a.len() == 1 {
        reveal_with_fuel(utf16_bytes, 2);
        assert(a.drop_last() =~= Seq::empty());
        assert(utf16_bytes(a) =~= char_bytes(a[0]));
    }
    if b.len() == 0 {
        assert(a + b =~= a);
        assert(utf16_bytes(a) + utf16_bytes(b) =~= utf16_bytes(a));
    } else {
        law_utf16_goes_character_by_character(a, b.drop_last());
        assert((a + b).drop_last() =~= a + b.drop_last());
        assert(utf16_bytes(a + b) =~= utf16_bytes(a) + utf16_bytes(b));
    }
}

/// The document holds the entries of its labels in their order, each with its own escaped label and
/// escaped text.
pub proof fn law_the_document_lists_every_label(
    a: Seq<(Seq<char>, Seq<char>)>,
    b: Seq<(Seq<char>, Seq<char>)>,
)
    ensures
        entries_xml(a + b) == entries_xml(a) + entries_xml(b),
        a.len() == 1 ==> entries_xml(a) == "  <entry label=\""@ + escaped(a[0].0)
            + "\">\n    <text>"@ + escaped(a[0].1) + "</text>\n  </entry>\n"@,
    decreases b.len(),
{
    if a.len() == 1 {
        reveal_with_fuel(entries_xml, 2);
        assert(a.drop_last() =~= Seq::empty());
        assert(entries_xml(a) =~= entry_xml(a[0].0, a[0].1));
    }
    if b.len() == 0 {
        assert(a + b =~= a);
        assert(entries_xml(a) + entries_xml(b) =~= entries_xml(a));
    } else {
        law_the_document_lists_every_label(a, b.drop_last());
        assert((a + b).drop_last() =~= a + b.drop_last());
        assert(entries_xml(a + b) =~= entries_xml(a) + entries_xml(b));
    }
}

/// A name is written three times, under labels of the character and the slot, the third time in
/// upper case.
pub proof fn law_a_name_is_written_under_three_labels(
    names: &NameOverride,
    r: Vec<(String, String)>,
)
    requires
        call_ensures(NameOverride::labels, (names,), r),
    ensures
        r@.len() == 3,
        r@[0].1@ == names.display@,
        r@[1].1@ == names.display@,
        r@[2].1@ == unicode_upper(names.display@),
        r@[0].0@ == label("nam_chr0_"@, names.slot, names.name_id@),
        r@[1].0@ == label("nam_chr1_"@, names.slot, names.name_id@),
        r@[2].0@ == label("nam_chr2_"@, names.slot, names.name_id@),
{
    let all = label_texts(r@);
    assert(all.len() == r@.len());
    assert(all[0] == (r@[0].0@, r@[0].1@));
    assert(all[1] == (r@[1].0@, r@[1].1@));
    assert(all[2] == (r@[2].0@, r@[2].1@));
}

/// A name with texts of its own for each label is written with those; a label without one takes the
/// fallback, and without that none is written.
pub proof fn law_each_label_takes_its_own_text(
    names: &DetailedNameOverride,
    r: Vec<(String, String)>,
)
    requires
        call_ensures(DetailedNameOverride::labels, (names,), r),
    ensures
        names.fallback is None && names.chr0 is None && names.chr1 is None && names.chr2 is None
            ==> r@.len() == 0,
        names.fallback is Some ==> r@.len() == 3,
        names.chr0 is Some && names.chr1 is Some && names.chr2 is Some ==> r@.len() == 3
            && r@[0].1@ == names.chr0->0@ && r@[1].1@ == names.chr1->0@ && r@[2].1@
            == names.chr2->0@,
        names.fallback is Some && names.chr0 is None && names.chr1 is None && names.chr2 is None
            ==> r@[0].1@ == names.fallback->0@ && r@[1].1@ == names.fallback->0@ && r@[2].1@
            == unicode_upper(names.fallback->0@),
{
    let all = label_texts(r@);
    assert(all.len() == r@.len());
    if r@.len() == 3 {
        assert(all[0] == (r@[0].0@, r@[0].1@));
        assert(all[1] == (r@[1].0@, r@[1].1@));
        assert(all[2] == (r@[2].0@, r@[2].1@));
    }
}

} // verus!
