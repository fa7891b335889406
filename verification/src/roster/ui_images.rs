//! The UI images that a project picks for a roster entry: how they are keyed, where they go, and
//! how a picked image becomes texture data.

use vstd::prelude::*;
use vstd::string::*;

use crate::keyed::{entries, keys, lookup};
use crate::roster::gamma::{apply_gamma, corrected};
use crate::roster::icons::{image_file, image_file_text};
use crate::roster::{RosterBacking, RosterEntry, RosterKey};
use crate::text::{
    ascending, chars_of, concat, digits_to_u8, digits_u8, has_prefix, lemma_two_digits_reads_back,
    starts_with, string_between, two_digit_text, two_digits,
};

verus! {

/// The kinds of images of an entry, in the order they are preferred.
pub fn ui_image_kinds() -> (r: Vec<&'static str>)
    ensures
        r@.len() == 5,
        r@[0]@ == "chara_1"@,
        r@[1]@ == "chara_2"@,
        r@[2]@ == "chara_0"@,
        r@[3]@ == "stock_90"@,
        r@[4]@ == "stock_80"@,
{
    let mut r: Vec<&'static str> = Vec::new();
    r.push("chara_1");
    r.push("chara_2");
    r.push("chara_0");
    r.push("stock_90");
    r.push("stock_80");
    r
}

/// A picked image, and whether its colours are corrected when it is shown and when it is written.
#[derive(Debug, Clone, Default, PartialEq, Eq)]
pub struct UiImageOverride {
    pub png_path: String,
    pub gamma_render: bool,
    pub gamma_upload: bool,
}

/// The key of an image: the kind alone for the entry's own slot, or the kind and another slot.
pub open spec fn key_of(kind: Seq<char>, slot: Option<u8>) -> Seq<char> {
    match slot {
        Some(slot) => kind + "#c"@ + two_digits(slot as nat),
        None => kind,
    }
}

/// The key of an image.
pub fn image_key(kind: &str, slot: Option<u8>) -> (r: String)
    ensures
        r@ == key_of(kind@, slot),
{
    match slot {
        Some(slot) => {
            let mut r = concat(kind, "#c");
            let digits = two_digit_text(slot as u64);
            r.append(digits.as_str());
            r
        },
        None => kind.to_owned(),
    }
}

/// Where the last `#` of a text stands.
pub open spec fn last_mark(s: Seq<char>) -> Option<int>
    decreases s.len(),
{
    if s.len() == 0 {
        None
    } else if s.last() == '#' {
        Some(s.len() - 1)
    } else {
        last_mark(s.drop_last())
    }
}

/// The slot that a suffix names: a `c` and nothing but digits.
pub open spec fn suffix_slot(suffix: Seq<char>) -> Option<u8> {
    if suffix.len() > 0 && suffix[0] == 'c' {
        digits_u8(suffix.skip(1))
    } else {
        None
    }
}

/// The kind and the slot of a key. What has no suffix that names a slot is a kind alone.
pub open spec fn key_parts(key: Seq<char>) -> (Seq<char>, Option<u8>) {
    match last_mark(key) {
        Some(at) => match suffix_slot(key.skip(at + 1)) {
            Some(slot) => if at > 0 {
                (key.take(at), Some(slot))
            } else {
                (key, None)
            },
            None => (key, None),
        },
        None => (key, None),
    }
}

/// The kind and the slot of a key.
pub fn split_image_key(key: &str) -> (r: (String, Option<u8>))
    ensures
        (r.0@, r.1) == key_parts(key@),
{
    let v = chars_of(key);
    let mut at: usize = v.len();
    assert(v@.take(at as int) =~= v@);
    while at > 0 && v[at - 1] != '#'
        invariant
            at <= v.len(),
            last_mark(v@) == last_mark(v@.take(at as int)),
        decreases at,
    {
        assert(v@.take(at as int).drop_last() =~= v@.take(at - 1));
        at = at - 1;
    }
    if at == 0 {
        return (key.to_owned(), None);
    }
    assert(v@.take(at as int).last() == '#');
    assert(last_mark(v@) == Some(at - 1));
    let ghost suffix = v@.skip(at as int);
    if at > 1 && at < v.len() && v[at] == 'c' {
        assert(suffix[0] == 'c');
        assert(suffix.skip(1) =~= v@.skip(at + 1));
        if let Some(slot) = digits_to_u8(&v, at + 1) {
            let kind = string_between(&v, 0, at - 1);
            assert(kind@ =~= key@.take(at - 1));
            return (kind, Some(slot));
        }
    }
    (key.to_owned(), None)
}

proof fn lemma_last_mark(s: Seq<char>, rest: Seq<char>)
    requires
        forall|i: int| 0 <= i < rest.len() ==> #[trigger] rest[i] != '#',
    ensures
        last_mark(s + seq!['#'] + rest) == Some(s.len() as int),
    decreases rest.len(),
{
    let all = s + seq!['#'] + rest;
    if rest.len() == 0 {
        assert(all.last() == '#');
    } else {
        assert(all.last() == rest[rest.len() - 1]);
        assert(all.drop_last() =~= s + seq!['#'] + rest.drop_last());
        lemma_last_mark(s, rest.drop_last());
    }
}

/// The key of a kind and a slot splits into that kind and that slot.
pub proof fn law_slotted_keys_split_back(kind: Seq<char>, slot: u8)
    requires
        kind.len() > 0,
    ensures
        key_parts(key_of(kind, Some(slot))) == (kind, Some(slot)),
{
    reveal_strlit("#c");
    let digits = two_digits(slot as nat);
    lemma_two_digits_reads_back(slot as nat);
    let rest = seq!['c'] + digits;
    let key = key_of(kind, Some(slot));
    assert(key =~= kind + seq!['#'] + rest);
    assert forall|i: int| 0 <= i < rest.len() implies #[trigger] rest[i] != '#' by {
        if i > 0 {
            assert(rest[i] == digits[i - 1]);
        }
    }
    lemma_last_mark(kind, rest);
    assert(key.skip(kind.len() as int + 1) =~= rest);
    assert(rest.skip(1) =~= digits);
    assert(key.take(kind.len() as int) =~= kind);
}

/// The key of a kind alone splits into that kind alone, unless the kind ends as a slot does.
pub proof fn law_bare_keys_split_back(kind: Seq<char>)
    requires
        !kind.contains('#'),
    ensures
        key_parts(key_of(kind, None)) == (kind, None::<u8>),
    decreases kind.len(),
{
    lemma_no_mark(kind);
}

proof fn lemma_no_mark(s: Seq<char>)
    requires
        !s.contains('#'),
    ensures
        last_mark(s) is None,
    decreases s.len(),
{
    if s.len() > 0 {
        assert(s.contains(s.last()));
        assert forall|i: int| 0 <= i < s.len() - 1 implies s.drop_last()[i] != '#' by {
            assert(s.contains(s[i]));
        }
        lemma_no_mark(s.drop_last());
    }
}

/// The image of a kind at a slot: the one keyed by the slot, else the one keyed by the kind alone
/// when the slot is the entry's own.
pub open spec fn override_at(
    map: Map<Seq<char>, UiImageOverride>,
    kind: Seq<char>,
    slot: u8,
    entry_slot: u8,
) -> Option<UiImageOverride> {
    if map.contains_key(key_of(kind, Some(slot))) {
        Some(map[key_of(kind, Some(slot))])
    } else if slot == entry_slot && map.contains_key(kind) {
        Some(map[kind])
    } else {
        None
    }
}

/// The image of a kind at a slot.
pub fn find_override<'m>(
    map: &'m Vec<(String, UiImageOverride)>,
    kind: &str,
    slot: u8,
    entry_slot: u8,
) -> (r: Option<&'m UiImageOverride>)
    requires
        ascending(keys(map@)),
    ensures
        match r {
            Some(found) => override_at(entries(map@), kind@, slot, entry_slot) == Some(*found),
            None => override_at(entries(map@), kind@, slot, entry_slot) is None,
        },
{
    let key = image_key(kind, Some(slot));
    match lookup(map, key.as_str()) {
        Some(found) => Some(found),
        None => if slot == entry_slot {
            lookup(map, kind)
        } else {
            None
        },
    }
}

/// The game path of an image.
pub open spec fn image_path(kind: Seq<char>, name_id: Seq<char>, slot: u8) -> Seq<char> {
    if starts_with(kind, "stock"@) {
        image_file("ui/replace/stock"@, kind, name_id, slot)
    } else {
        image_file("ui/replace/chara"@, kind, name_id, slot)
    }
}

/// The game path of an image.
pub fn ui_image_path(kind: &str, name_id: &str, slot: u8) -> (r: String)
    ensures
        r@ == image_path(kind@, name_id@, slot),
{
    if has_prefix(kind, "stock") {
        image_file_text("ui/replace/stock", kind, name_id, slot)
    } else {
        image_file_text("ui/replace/chara", kind, name_id, slot)
    }
}

/// The width, the height and the pixels, four bytes each, of a PNG, as the `image` crate reads
/// them; none where it reports an error.
pub uninterp spec fn png_pixels(bytes: Seq<u8>) -> Option<(u32, u32, Seq<u8>)>;

/// `image::load_from_memory_with_format`, for a PNG, and `DynamicImage::to_rgba8` depend on the
/// bytes alone. The pixels are four bytes each, row by row.
#[verifier::external_body]
fn decode_png(bytes: &[u8]) -> (r: Option<(u32, u32, Vec<u8>)>)
    ensures
        match r {
            Some((width, height, pixels)) => {
                &&& png_pixels(bytes@) == Some((width, height, pixels@))
                &&& pixels@.len() == 4 * width * height
            },
            None => png_pixels(bytes@) is None,
        },
{
    match image::load_from_memory_with_format(bytes, image::ImageFormat::Png) {
        Ok(loaded) => {
            let rgba = loaded.to_rgba8();
            Some((rgba.width(), rgba.height(), rgba.into_raw()))
        },
        Err(_) => None,
    }
}

/// Why a picked image cannot be used.
#[derive(Debug, Clone, Copy, PartialEq, Eq, Structural)]
pub enum UiImageError {
    /// It cannot be read as a PNG.
    NotAPng,
    /// It has no pixels.
    Empty,
}

impl UiImageError {
    /// The error in words.
    pub fn message(self) -> (r: &'static str)
        ensures
            r@ == match self {
                UiImageError::NotAPng => "reading the PNG"@,
                UiImageError::Empty => "the PNG is empty"@,
            },
    {
        match self {
            UiImageError::NotAPng => "reading the PNG",
            UiImageError::Empty => "the PNG is empty",
        }
    }
}

/// An image: its size and its pixels, four bytes each, row by row.
#[derive(Debug, Clone, PartialEq, Eq)]
pub struct PreparedImage {
    pub width: u32,
    pub height: u32,
    pub pixels: Vec<u8>,
}

/// The pixels to compress.
pub open spec fn prepared_pixels(pixels: Seq<u8>, table: Option<&Vec<u8>>) -> Seq<u8> {
    match table {
        Some(table) => corrected(pixels, table@),
        None => pixels,
    }
}

/// Prepares a decoded image to be compressed. An image without pixels is refused.
pub fn prepare_image(
    width: u32,
    height: u32,
    pixels: Vec<u8>,
    gamma_table: Option<&Vec<u8>>,
) -> (r: Result<PreparedImage, UiImageError>)
    requires
        gamma_table matches Some(table) ==> table@.len() == 256,
    ensures
        match r {
            Ok(image) => {
                &&& width != 0 && height != 0
                &&& image.width == width
                &&& image.height == height
                &&& image.pixels@ == prepared_pixels(pixels@, gamma_table)
            },
            Err(error) => error == UiImageError::Empty && (width == 0 || height == 0),
        },
{
    let mut pixels = pixels;
    if let Some(table) = gamma_table {
        apply_gamma(&mut pixels, table);
    }
    if width == 0 || height == 0 {
        return Err(UiImageError::Empty);
    }
    Ok(PreparedImage { width, height, pixels })
}

/// A picked PNG as pixels to compress. The colours are corrected by the table, where one is given;
/// the image keeps its own size.
pub fn encode_ui_png(png_bytes: &[u8], gamma_table: Option<&Vec<u8>>) -> (r: Result<
    PreparedImage,
    UiImageError,
>)
    requires
        gamma_table matches Some(table) ==> table@.len() == 256,
    ensures
        match r {
            Ok(image) => png_pixels(png_bytes@) matches Some((width, height, pixels)) && width != 0
                && height != 0 && image.width == width && image.height == height
                && image.pixels@ == prepared_pixels(pixels, gamma_table) && image.pixels@.len() == 4
                * width * height,
            Err(UiImageError::NotAPng) => png_pixels(png_bytes@) is None,
            Err(UiImageError::Empty) => png_pixels(png_bytes@) matches Some((width, height, _)) && (
            width == 0 || height == 0),
        },
{
    match decode_png(png_bytes) {
        Some((width, height, pixels)) => prepare_image(width, height, pixels, gamma_table),
        None => Err(UiImageError::NotAPng),
    }
}

/// The pixels of a PNG as they are, for a preview. An image without pixels is no error here.
pub fn decode_png_rgba(bytes: &[u8]) -> (r: Result<PreparedImage, UiImageError>)
    ensures
        match r {
            Ok(image) => {
                &&& png_pixels(bytes@) == Some((image.width, image.height, image.pixels@))
                &&& image.pixels@.len() == 4 * image.width * image.height
            },
            Err(error) => error == UiImageError::NotAPng && png_pixels(bytes@) is None,
        },
{
    match decode_png(bytes) {
        Some((width, height, pixels)) => Ok(PreparedImage { width, height, pixels }),
        None => Err(UiImageError::NotAPng),
    }
}

/// One step of writing the images of a project.
#[derive(Debug, Clone, PartialEq, Eq)]
pub enum ImageStep {
    /// Something cannot be written, and why.
    Warn(String),
    /// An image to be read, encoded and written.
    Write {
        /// The entry and the key of the image, for a warning.
        label: String,
        png_path: String,
        gamma_upload: bool,
        /// Where it goes under the mod root.
        rel: String,
    },
}

/// A step, with its texts as characters.
pub enum StepView {
    Warn(Seq<char>),
    Write(Seq<char>, Seq<char>, bool, Seq<char>),
}

impl View for ImageStep {
    type V = StepView;

    open spec fn view(&self) -> StepView {
        match *self {
            ImageStep::Warn(text) => StepView::Warn(text@),
            ImageStep::Write { label, png_path, gamma_upload, rel } => StepView::Write(
                label@,
                png_path@,
                gamma_upload,
                rel@,
            ),
        }
    }
}

/// The steps of a list, with their texts as characters.
pub open spec fn step_views(steps: Seq<ImageStep>) -> Seq<StepView> {
    steps.map_values(|step: ImageStep| step@)
}

/// The images of one roster entry.
pub struct EntryImages {
    pub key: RosterKey,
    /// The entry of that key, where the index has one.
    pub entry: Option<RosterEntry>,
    /// By image key.
    pub images: Vec<(String, UiImageOverride)>,
}

/// The slot that an image without one goes to.
pub open spec fn own_slot(backing: RosterBacking) -> u8 {
    match backing {
        RosterBacking::Fighter => 0,
        RosterBacking::SlotClone { slot, .. } => slot,
    }
}

/// The step for one image of an entry that has a row.
pub open spec fn write_step(
    key: Seq<char>,
    name_id: Seq<char>,
    entry_slot: u8,
    image: (String, UiImageOverride),
) -> StepView {
    let (kind, slot) = key_parts(image.0@);
    StepView::Write(
        key + " "@ + image.0@,
        image.1.png_path@,
        image.1.gamma_upload,
        image_path(
            kind,
            name_id,
            match slot {
                Some(slot) => slot,
                None => entry_slot,
            },
        ),
    )
}

/// The steps for the images of an entry.
pub open spec fn entry_steps(one: EntryImages) -> Seq<StepView> {
    match one.entry {
        None => seq![
            StepView::Warn(
                one.key@
                    + ": no roster entry exists for this image override, so its portrait(s) were not written — still saved in the project."@,
            ),
        ],
        Some(entry) => match entry.name_id {
            None => seq![
                StepView::Warn(
                    one.key@
                        + ": this entry has no roster row, so its portrait(s) have nowhere to be written."@,
                ),
            ],
            Some(name_id) => one.images@.map_values(
                |image: (String, UiImageOverride)|
                    write_step(one.key@, name_id@, own_slot(entry.backing), image),
            ),
        },
    }
}

/// The steps for the images of all entries.
pub open spec fn all_steps(all: Seq<EntryImages>) -> Seq<StepView>
    decreases all.len(),
{
    if all.len() == 0 {
        Seq::empty()
    } else {
        all_steps(all.drop_last()) + entry_steps(all.last())
    }
}

fn add_entry_steps(steps: &mut Vec<ImageStep>, one: &EntryImages)
    ensures
        step_views(final(steps)@) == step_views(old(steps)@) + entry_steps(*one),
{
    let ghost was = step_views(steps@);
    let key = one.key.as_str();
    let entry = match &one.entry {
        Some(entry) => entry,
        None => {
            steps.push(
                ImageStep::Warn(
                    concat(
                        key,
                        ": no roster entry exists for this image override, so its portrait(s) were not written — still saved in the project.",
                    ),
                ),
            );
            assert(step_views(steps@) =~= was + entry_steps(*one));
            return;
        },
    };
    let name_id = match &entry.name_id {
        Some(name_id) => name_id.as_str(),
        None => {
            steps.push(
                ImageStep::Warn(
                    concat(
                        key,
                        ": this entry has no roster row, so its portrait(s) have nowhere to be written.",
                    ),
                ),
            );
            assert(step_views(steps@) =~= was + entry_steps(*one));
            return;
        },
    };
    let entry_slot: u8 = match entry.backing.slot() {
        Some(slot) => slot,
        None => 0,
    };
    let ghost all = entry_steps(*one);
    let mut i: usize = 0;
    assert(step_views(steps@) =~= was + all.take(0));
    while i < one.images.len()
        invariant
            i <= one.images@.len(),
            key@ == one.key@,
            all == one.images@.map_values(
                |image: (String, UiImageOverride)|
                    write_step(one.key@, name_id@, entry_slot, image),
            ),
            step_views(steps@) == was + all.take(i as int),
        decreases one.images.len() - i,
    {
        let ghost before = step_views(steps@);
        let stored = one.images[i].0.as_str();
        let (kind, key_slot) = split_image_key(stored);
        let slot: u8 = match key_slot {
            Some(slot) => slot,
            None => entry_slot,
        };
        let rel = ui_image_path(kind.as_str(), name_id, slot);
        let mut label = concat(key, " ");
        label.append(stored);
        let step = ImageStep::Write {
            label,
            png_path: one.images[i].1.png_path.clone(),
            gamma_upload: one.images[i].1.gamma_upload,
            rel,
        };
        let ghost view = step@;
        steps.push(step);
        assert(view == write_step(one.key@, name_id@, entry_slot, one.images@[i as int]));
        assert(step_views(steps@) =~= before.push(view));
        assert(all.take(i + 1) =~= all.take(i as int).push(view));
        assert(step_views(steps@) =~= was + all.take(i + 1));
        i = i + 1;
    }
    assert(all.take(all.len() as int) =~= all);
}

/// Plans the writing of every picked image, in order. An entry that has no row has nowhere to
/// write to, and says so.
pub fn export_ui_images(all: &Vec<EntryImages>) -> (steps: Vec<ImageStep>)
    ensures
        step_views(steps@) == all_steps(all@),
{
    let mut steps: Vec<ImageStep> = Vec::new();
    let mut i: usize = 0;
    assert(all@.take(0) =~= Seq::empty());
    assert(step_views(steps@) =~= Seq::empty());
    while i < all.len()
        invariant
            i <= all.len(),
            step_views(steps@) == all_steps(all@.take(i as int)),
        decreases all.len() - i,
    {
        assert(all@.take(i + 1).drop_last() =~= all@.take(i as int));
        add_entry_steps(&mut steps, &all[i]);
        i = i + 1;
    }
    assert(all@.take(all@.len() as int) =~= all@);
    steps
}

/// The warning for an image that cannot be read.
pub fn read_warning(label: &str, png_path: &str, error: &str) -> (r: String)
    ensures
        r@ == label@ + ": could not read "@ + png_path@ + ": "@ + error@,
{
    let mut r = concat(label, ": could not read ");
    r.append(png_path);
    r.append(": ");
    r.append(error);
    r
}

/// The warning for an image that cannot be encoded.
pub fn encode_warning(label: &str, error: &str) -> (r: String)
    ensures
        r@ == label@ + ": encoding failed: "@ + error@,
{
    let mut r = concat(label, ": encoding failed: ");
    r.append(error);
    r
}

/// Where the image of a slot goes: below the tree of its kind, in the directory of the kind, under
/// the kind, the entry's name and the slot in at least two digits.
pub open spec fn is_file_of(path: Seq<char>, kind: Seq<char>, name_id: Seq<char>, slot: u8) -> bool {
    let tree = if kind.len() >= 5 && kind.take(5) == "stock"@ {
        "ui/replace/stock/"@
    } else {
        "ui/replace/chara/"@
    };
    exists|digits: Seq<char>|
        {
            &&& digits.len() >= 2
            &&& #[trigger] digits_u8(digits) == Some(slot)
            &&& path == tree + kind + "/"@ + kind + "_"@ + name_id + "_"@ + digits + ".bntx"@
        }
}

proof fn lemma_image_path(kind: Seq<char>, name_id: Seq<char>, slot: u8)
    ensures
        is_file_of(image_path(kind, name_id, slot), kind, name_id, slot),
{
    let digits = two_digits(slot as nat);
    lemma_two_digits_reads_back(slot as nat);
    reveal_strlit("stock");
    reveal_strlit("/");
    reveal_strlit("ui/replace/stock");
    reveal_strlit("ui/replace/stock/");
    reveal_strlit("ui/replace/chara");
    reveal_strlit("ui/replace/chara/");
    assert("ui/replace/stock"@ + "/"@ =~= "ui/replace/stock/"@);
    assert("ui/replace/chara"@ + "/"@ =~= "ui/replace/chara/"@);
    if kind.len() >= 5 {
        assert(kind.take(5) =~= kind.subrange(0, 5));
    }
    let tree = if kind.len() >= 5 && kind.take(5) == "stock"@ {
        "ui/replace/stock/"@
    } else {
        "ui/replace/chara/"@
    };
    assert(digits_u8(digits) == Some(slot));
    assert(image_path(kind, name_id, slot) =~= tree + kind + "/"@ + kind + "_"@ + name_id + "_"@
        + digits + ".bntx"@);
}

/// Every image of an entry that has a row is written, in order: one that is stored for a slot goes to
/// the file of that slot, whatever slot the entry has, and one that is stored for none goes to that of
/// the entry. Its source and its correction are those of the image.
pub proof fn law_an_image_goes_to_its_own_slot(
    one: EntryImages,
    i: int,
    kind: Seq<char>,
    slot: Option<u8>,
)
    requires
        one.entry is Some,
        one.entry->0.name_id is Some,
        0 <= i < one.images@.len(),
        kind.len() > 0,
        !kind.contains('#'),
        one.images@[i].0@ == key_of(kind, slot),
    ensures
        entry_steps(one).len() == one.images@.len(),
        match entry_steps(one)[i] {
            StepView::Write(label, png_path, gamma_upload, rel) => {
                &&& png_path == one.images@[i].1.png_path@
                &&& gamma_upload == one.images@[i].1.gamma_upload
                &&& is_file_of(
                    rel,
                    kind,
                    one.entry->0.name_id->0@,
                    match (slot, one.entry->0.backing) {
                        (Some(slot), _) => slot,
                        (None, RosterBacking::Fighter) => 0,
                        (None, RosterBacking::SlotClone { donor, slot }) => slot,
                    },
                )
            },
            StepView::Warn(_) => false,
        },
{
    let name_id = one.entry->0.name_id->0@;
    let own = own_slot(one.entry->0.backing);
    match slot {
        Some(slot) => {
            law_slotted_keys_split_back(kind, slot);
            lemma_image_path(kind, name_id, slot);
        },
        None => {
            law_bare_keys_split_back(kind);
            lemma_image_path(kind, name_id, own);
        },
    }
}

/// Images of two slots of one kind never go to the same file.
pub proof fn law_slots_have_files_of_their_own(
    kind: Seq<char>,
    name_id: Seq<char>,
    a: u8,
    b: u8,
)
    requires
        image_path(kind, name_id, a) == image_path(kind, name_id, b),
    ensures
        a == b,
{
    lemma_two_digits_reads_back(a as nat);
    lemma_two_digits_reads_back(b as nat);
    let x = two_digits(a as nat);
    let y = two_digits(b as nat);
    let path = image_path(kind, name_id, a);
    let dir = if starts_with(kind, "stock"@) {
        "ui/replace/stock"@
    } else {
        "ui/replace/chara"@
    };
    let head = dir + "/"@ + kind + "/"@ + kind + "_"@ + name_id + "_"@;
    let tail = ".bntx"@;
    assert(path == head + x + tail);
    assert(path == head + y + tail);
    assert(x.len() == y.len());
    let end = head.len() + x.len();
    assert(path.subrange(head.len() as int, end as int) =~= x);
    assert(path.subrange(head.len() as int, end as int) =~= y);
}

/// An image that is stored for a slot is shown at that slot; the image that is stored without one is
/// shown at the entry's own slot, where none is stored for it, and at no other.
pub proof fn law_an_image_is_shown_at_its_slot(
    map: Map<Seq<char>, UiImageOverride>,
    kind: Seq<char>,
    slot: u8,
    entry_slot: u8,
)
    ensures
        map.contains_key(key_of(kind, Some(slot))) ==> override_at(map, kind, slot, entry_slot)
            == Some(map[key_of(kind, Some(slot))]),
        !map.contains_key(key_of(kind, Some(slot))) && slot != entry_slot ==> override_at(
            map,
            kind,
            slot,
            entry_slot,
        ) is None,
        !map.contains_key(key_of(kind, Some(entry_slot))) && map.contains_key(kind) ==> override_at(
            map,
            kind,
            entry_slot,
            entry_slot,
        ) == Some(map[kind]),
        !map.contains_key(key_of(kind, Some(slot))) && !map.contains_key(kind) ==> override_at(
            map,
            kind,
            slot,
            entry_slot,
        ) is None,
{
}

/// A whole fighter's own slot is the first; a costume's is its own.
pub proof fn law_the_own_slot_is_that_of_the_costume(backing: RosterBacking)
    ensures
        match backing {
            RosterBacking::Fighter => own_slot(backing) == 0,
            RosterBacking::SlotClone { slot, .. } => own_slot(backing) == slot,
        },
{
}

/// The images of all entries are written in the order of the entries: one step for each image of an
/// entry that has a row, and one warning for an entry that has none or is not there.
pub proof fn law_every_image_is_written_or_warned_of(all: Seq<EntryImages>, more: EntryImages)
    ensures
        all_steps(all.push(more)) == all_steps(all) + entry_steps(more),
        all_steps(Seq::empty()).len() == 0,
        more.entry is Some && more.entry->0.name_id is Some ==> entry_steps(more).len()
            == more.images@.len() && forall|i: int|
            0 <= i < more.images@.len() ==> match #[trigger] entry_steps(more)[i] {
                StepView::Write(label, png, gamma, rel) => png == more.images@[i].1.png_path@
                    && gamma == more.images@[i].1.gamma_upload,
                StepView::Warn(_) => false,
            },
        more.entry is None || more.entry->0.name_id is None ==> entry_steps(more).len() == 1
            && entry_steps(more)[0] is Warn,
{
    assert(all.push(more).drop_last() =~= all);
}

} // verus!
