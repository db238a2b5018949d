//! Clipboard contents: typed items, raw payloads and the conversions between them.

use std::collections::hash_map::DefaultHasher;
use std::hash::Hasher;
use vstd::prelude::*;
use vstd::std_specs::hash::DefaultHasherAdditionalSpecFns;
use vstd::string::StringExecFns;

use crate::text::opt_view;

verus! {

broadcast use vstd::std_specs::vec::group_vec_axioms;

/// The MIME type under which plain text is stored in a raw item.
pub const PLAIN_TEXT_MIME_TYPE: &'static str = "text/plain";

/// An image format that the clipboard knows.
///
/// The formats are listed from the most to the least likely to be pasted, which matters
/// where they are tried one after the other.
#[derive(Clone, Copy, Debug, PartialEq, Eq, Hash, Structural)]
pub enum ImageFormat {
    /// `.png`
    Png,
    /// `.jpeg` or `.jpg`
    Jpeg,
    /// `.webp`
    Webp,
    /// `.gif`
    Gif,
    /// `.svg`
    Svg,
    /// `.bmp`
    Bmp,
    /// `.tif` or `.tiff`
    Tiff,
    /// `.ico`
    Ico,
}

/// Every image format, in the order in which they are tried.
pub open spec fn image_formats() -> Seq<ImageFormat> {
    seq![
        ImageFormat::Png,
        ImageFormat::Jpeg,
        ImageFormat::Webp,
        ImageFormat::Gif,
        ImageFormat::Svg,
        ImageFormat::Bmp,
        ImageFormat::Tiff,
        ImageFormat::Ico,
    ]
}

/// The image format that a MIME type stands for.
pub open spec fn image_format_of(mime_type: Seq<char>) -> Option<ImageFormat> {
    if mime_type == "image/png"@ {
        Some(ImageFormat::Png)
    } else if mime_type == "image/jpeg"@ || mime_type == "image/jpg"@ {
        Some(ImageFormat::Jpeg)
    } else if mime_type == "image/webp"@ {
        Some(ImageFormat::Webp)
    } else if mime_type == "image/gif"@ {
        Some(ImageFormat::Gif)
    } else if mime_type == "image/svg+xml"@ {
        Some(ImageFormat::Svg)
    } else if mime_type == "image/bmp"@ {
        Some(ImageFormat::Bmp)
    } else if mime_type == "image/tiff"@ || mime_type == "image/tif"@ {
        Some(ImageFormat::Tiff)
    } else if mime_type == "image/ico"@ {
        Some(ImageFormat::Ico)
    } else {
        None
    }
}

impl ImageFormat {
    /// The MIME type of the format.
    pub open spec fn mime(self) -> Seq<char> {
        match self {
            ImageFormat::Png => "image/png"@,
            ImageFormat::Jpeg => "image/jpeg"@,
            ImageFormat::Webp => "image/webp"@,
            ImageFormat::Gif => "image/gif"@,
            ImageFormat::Svg => "image/svg+xml"@,
            ImageFormat::Bmp => "image/bmp"@,
            ImageFormat::Tiff => "image/tiff"@,
            ImageFormat::Ico => "image/ico"@,
        }
    }

    /// Every format, in the order in which they are tried.
    pub fn iter() -> (formats: Vec<ImageFormat>)
        ensures
            formats@ == image_formats(),
    {
        let formats = vec![
            ImageFormat::Png,
            ImageFormat::Jpeg,
            ImageFormat::Webp,
            ImageFormat::Gif,
            ImageFormat::Svg,
            ImageFormat::Bmp,
            ImageFormat::Tiff,
            ImageFormat::Ico,
        ];
        assert(formats@ =~= image_formats());
        formats
    }

    /// The MIME type of the format.
    pub fn mime_type(self) -> (mime_type: &'static str)
        ensures
            mime_type@ == self.mime(),
    {
        match self {
            ImageFormat::Png => "image/png",
            ImageFormat::Jpeg => "image/jpeg",
            ImageFormat::Webp => "image/webp",
            ImageFormat::Gif => "image/gif",
            ImageFormat::Svg => "image/svg+xml",
            ImageFormat::Bmp => "image/bmp",
            ImageFormat::Tiff => "image/tiff",
            ImageFormat::Ico => "image/ico",
        }
    }

    /// The format that a MIME type stands for, if it is one of an image.
    pub fn from_mime_type(mime_type: &str) -> (format: Option<ImageFormat>)
        ensures
            format == image_format_of(mime_type@),
    {
        if *mime_type == *"image/png" {
            Some(ImageFormat::Png)
        } else if *mime_type == *"image/jpeg" || *mime_type == *"image/jpg" {
            Some(ImageFormat::Jpeg)
        } else if *mime_type == *"image/webp" {
            Some(ImageFormat::Webp)
        } else if *mime_type == *"image/gif" {
            Some(ImageFormat::Gif)
        } else if *mime_type == *"image/svg+xml" {
            Some(ImageFormat::Svg)
        } else if *mime_type == *"image/bmp" {
            Some(ImageFormat::Bmp)
        } else if *mime_type == *"image/tiff" || *mime_type == *"image/tif" {
            Some(ImageFormat::Tiff)
        } else if *mime_type == *"image/ico" {
            Some(ImageFormat::Ico)
        } else {
            None
        }
    }
}

/// The MIME type of a format stands for that format, and none of them is the MIME type of
/// plain text.
pub proof fn law_image_mime_types(format: ImageFormat)
    ensures
        image_format_of(format.mime()) == Some(format),
        format.mime() != PLAIN_TEXT_MIME_TYPE@,
        format.mime().len() > 0,
{
    reveal_strlit("image/png");
    reveal_strlit("image/jpeg");
    reveal_strlit("image/jpg");
    reveal_strlit("image/webp");
    reveal_strlit("image/gif");
    reveal_strlit("image/svg+xml");
    reveal_strlit("image/bmp");
    reveal_strlit("image/tiff");
    reveal_strlit("image/tif");
    reveal_strlit("image/ico");
    reveal_strlit("text/plain");
    let m = format.mime();
    assert(m.len() > 6 && m[6] == format.mime()[6]);
    assert("image/png"@[6] == 'p' && "image/jpeg"@[6] == 'j' && "image/jpg"@[6] == 'j');
    assert("image/webp"@[6] == 'w' && "image/gif"@[6] == 'g' && "image/svg+xml"@[6] == 's');
    assert("image/bmp"@[6] == 'b' && "image/tiff"@[6] == 't' && "image/tif"@[6] == 't');
    assert("image/ico"@[6] == 'i');
    assert(m[0] == 'i' && "text/plain"@[0] == 't');
}

/// Only the MIME type of a format, or a spelling of it that other programs use, is taken for
/// an image.
pub proof fn law_other_mime_types_are_no_images(mime_type: &str, format: Option<ImageFormat>)
    requires
        call_ensures(ImageFormat::from_mime_type, (mime_type,), format),
    ensures
        format matches Some(format) ==> {
            ||| mime_type@ == format.mime()
            ||| format == ImageFormat::Jpeg && mime_type@ == "image/jpg"@
            ||| format == ImageFormat::Tiff && mime_type@ == "image/tif"@
        },
        forall|known: ImageFormat|
            mime_type@ == #[trigger] known.mime() ==> format == Some(known),
        mime_type@ == "image/jpg"@ ==> format == Some(ImageFormat::Jpeg),
        mime_type@ == "image/tif"@ ==> format == Some(ImageFormat::Tiff),
{
    assert forall|known: ImageFormat| mime_type@ == #[trigger] known.mime() implies format == Some(
        known,
    ) by {
        law_image_mime_types(known);
    }
    reveal_strlit("image/png");
    reveal_strlit("image/jpeg");
    reveal_strlit("image/jpg");
    reveal_strlit("image/webp");
    reveal_strlit("image/gif");
    reveal_strlit("image/svg+xml");
    reveal_strlit("image/bmp");
    reveal_strlit("image/tif");
    assert("image/png"@[6] == 'p' && "image/jpeg"@[6] == 'j' && "image/jpg"@[6] == 'j');
    assert("image/tif"@[6] == 't');
    assert("image/webp"@[6] == 'w' && "image/gif"@[6] == 'g' && "image/svg+xml"@[6] == 's');
    assert("image/bmp"@[6] == 'b');
}

/// The formats and their MIME types belong together one by one: different formats have
/// different types, and asking for the type of a format and for the format of that type leads
/// back to the format.
pub proof fn law_formats_have_their_own_mime_types(
    first: ImageFormat,
    second: ImageFormat,
    first_type: &'static str,
    second_type: &'static str,
)
    requires
        call_ensures(ImageFormat::mime_type, (first,), first_type),
        call_ensures(ImageFormat::mime_type, (second,), second_type),
    ensures
        first_type@ == second_type@ <==> first == second,
        first_type@.take(6) == "image/"@,
{
    law_image_mime_types(first);
    law_image_mime_types(second);
    reveal_strlit("image/");
    reveal_strlit("image/png");
    reveal_strlit("image/jpeg");
    reveal_strlit("image/webp");
    reveal_strlit("image/gif");
    reveal_strlit("image/svg+xml");
    reveal_strlit("image/bmp");
    reveal_strlit("image/tiff");
    reveal_strlit("image/ico");
    assert(first_type@.take(6) =~= "image/"@);
}

/// Every format is tried, and each of them once.
pub proof fn law_image_formats_are_complete(format: ImageFormat)
    ensures
        image_formats().contains(format),
        image_formats().no_duplicates(),
{
    let all = image_formats();
    assert(all[0] == ImageFormat::Png && all[1] == ImageFormat::Jpeg);
    assert(all[2] == ImageFormat::Webp && all[3] == ImageFormat::Gif);
    assert(all[4] == ImageFormat::Svg && all[5] == ImageFormat::Bmp);
    assert(all[6] == ImageFormat::Tiff && all[7] == ImageFormat::Ico);
}

/// The identifier that the clipboard gives to content: a hash of its bytes.
pub open spec fn content_hash(bytes: Seq<u8>) -> u64 {
    DefaultHasher::spec_finish(seq![bytes])
}

/// Hashes content to get an identifier for it.
pub fn hash(bytes: &Vec<u8>) -> (id: u64)
    ensures
        id == content_hash(bytes@),
{
    let mut hasher = DefaultHasher::new();
    hasher.write(bytes.as_slice());
    assert(hasher@ =~= seq![bytes@]);
    hasher.finish()
}

/// What a clipboard entry holds.
pub enum EntryView {
    /// Text.
    String(Seq<char>),
    /// An image: its format, its bytes and its identifier.
    Image { format: ImageFormat, bytes: Seq<u8>, id: u64 },
    /// Paths of files outside the application, as they are displayed.
    ExternalPaths(Seq<Seq<char>>),
}

/// What a raw clipboard entry holds.
pub struct RawEntryView {
    /// The name of the format, a MIME type in most cases.
    pub format: Seq<char>,
    /// The payload.
    pub bytes: Seq<u8>,
}

/// Text on the clipboard.
#[derive(Debug, PartialEq, Eq)]
pub struct ClipboardString {
    pub text: String,
}

impl View for ClipboardString {
    type V = Seq<char>;

    open spec fn view(&self) -> Seq<char> {
        self.text@
    }
}

impl ClipboardString {
    /// Text without anything attached to it.
    pub fn new(text: String) -> (res: ClipboardString)
        ensures
            res@ == text@,
    {
        ClipboardString { text }
    }
}

impl Clone for ClipboardString {
    fn clone(&self) -> (res: Self)
        ensures
            res@ == self@,
    {
        ClipboardString { text: self.text.clone() }
    }
}

/// An image on the clipboard.
#[derive(Debug, PartialEq, Eq)]
pub struct Image {
    /// The format that the bytes are in.
    pub format: ImageFormat,
    /// The encoded image.
    pub bytes: Vec<u8>,
    /// An identifier for the image.
    pub id: u64,
}

impl View for Image {
    type V = EntryView;

    open spec fn view(&self) -> EntryView {
        EntryView::Image { format: self.format, bytes: self.bytes@, id: self.id }
    }
}

/// The image that bytes in a format stand for.
pub open spec fn image_of(format: ImageFormat, bytes: Seq<u8>) -> EntryView {
    EntryView::Image { format, bytes, id: content_hash(bytes) }
}

impl Image {
    /// An image whose identifier is the hash of its bytes.
    pub fn from_bytes(format: ImageFormat, bytes: Vec<u8>) -> (image: Image)
        ensures
            image@ == image_of(format, bytes@),
    {
        let id: u64 = hash(&bytes);
        Image { format, bytes, id }
    }
}

impl Clone for Image {
    fn clone(&self) -> (res: Self)
        ensures
            res@ == self@,
    {
        let bytes = self.bytes.clone();
        assert(bytes@ =~= self.bytes@);
        Image { format: self.format, bytes, id: self.id }
    }
}

/// An image has the format and the bytes that it is made of, and its identifier is what a new
/// hasher gives for those bytes, all of them.
pub proof fn law_images_hold_their_bytes(format: ImageFormat, bytes: Vec<u8>, image: Image)
    requires
        call_ensures(Image::from_bytes, (format, bytes), image),
    ensures
        image.format == format,
        image.bytes@ == bytes@,
        image.id == DefaultHasher::spec_finish(seq![bytes@]),
        image_of(format, bytes@) == (EntryView::Image {
            format,
            bytes: bytes@,
            id: DefaultHasher::spec_finish(seq![bytes@]),
        }),
{
}

/// The identifier of content is what a new hasher gives for its bytes, all of them.
pub proof fn law_hashes_cover_every_byte(bytes: Vec<u8>, id: u64)
    requires
        call_ensures(hash, (&bytes,), id),
    ensures
        id == DefaultHasher::spec_finish(seq![bytes@]),
{
}

/// Paths of files outside the application, as they are displayed.
#[derive(Debug, PartialEq, Eq)]
pub struct ExternalPaths(pub Vec<String>);

/// The texts of strings.
pub open spec fn texts(strings: Seq<String>) -> Seq<Seq<char>> {
    strings.map_values(|s: String| s@)
}

impl View for ExternalPaths {
    type V = Seq<Seq<char>>;

    open spec fn view(&self) -> Seq<Seq<char>> {
        texts(self.0@)
    }
}

impl Clone for ExternalPaths {
    fn clone(&self) -> (res: Self)
        ensures
            res@ == self@,
    {
        let paths = self.0.clone();
        assert(texts(paths@) =~= texts(self.0@));
        ExternalPaths(paths)
    }
}

/// One entry of a clipboard item.
#[derive(Debug, PartialEq, Eq)]
pub enum ClipboardEntry {
    /// Text.
    String(ClipboardString),
    /// An image.
    Image(Image),
    /// Files outside the application.
    ExternalPaths(ExternalPaths),
}

impl View for ClipboardEntry {
    type V = EntryView;

    open spec fn view(&self) -> EntryView {
        match self {
            ClipboardEntry::String(string) => EntryView::String(string@),
            ClipboardEntry::Image(image) => image@,
            ClipboardEntry::ExternalPaths(paths) => EntryView::ExternalPaths(paths@),
        }
    }
}

impl Clone for ClipboardEntry {
    fn clone(&self) -> (res: Self)
        ensures
            res@ == self@,
    {
        match self {
            ClipboardEntry::String(string) => ClipboardEntry::String(string.clone()),
            ClipboardEntry::Image(image) => ClipboardEntry::Image(image.clone()),
            ClipboardEntry::ExternalPaths(paths) => ClipboardEntry::ExternalPaths(paths.clone()),
        }
    }
}

/// What is on the clipboard: entries in the order in which they were put there.
#[derive(Debug, PartialEq, Eq)]
pub struct ClipboardItem {
    pub entries: Vec<ClipboardEntry>,
}

impl View for ClipboardItem {
    type V = Seq<EntryView>;

    open spec fn view(&self) -> Seq<EntryView> {
        self.entries@.map_values(|entry: ClipboardEntry| entry@)
    }
}

impl Clone for ClipboardItem {
    fn clone(&self) -> (res: Self)
        ensures
            res@ == self@,
    {
        let res = ClipboardItem { entries: self.entries.clone() };
        assert(res@ =~= self@);
        res
    }
}

/// The texts one after the other.
pub open spec fn concatenated(parts: Seq<Seq<char>>) -> Seq<char>
    decreases parts.len(),
{
    if parts.len() == 0 {
        Seq::empty()
    } else {
        concatenated(parts.drop_last()) + parts.last()
    }
}

/// The text of the string entries, one after the other.
pub open spec fn string_text(entries: Seq<EntryView>) -> Seq<char>
    decreases entries.len(),
{
    if entries.len() == 0 {
        Seq::empty()
    } else {
        string_text(entries.drop_last()) + match entries.last() {
            EntryView::String(text) => text,
            _ => Seq::empty(),
        }
    }
}

/// The paths of the external path entries, one after the other.
pub open spec fn path_text(entries: Seq<EntryView>) -> Seq<char>
    decreases entries.len(),
{
    if entries.len() == 0 {
        Seq::empty()
    } else {
        path_text(entries.drop_last()) + match entries.last() {
            EntryView::ExternalPaths(paths) => concatenated(paths),
            _ => Seq::empty(),
        }
    }
}

/// The text of an item: that of its strings or, where they hold none, that of its paths.
pub open spec fn item_text(entries: Seq<EntryView>) -> Option<Seq<char>> {
    if string_text(entries).len() > 0 {
        Some(string_text(entries))
    } else if path_text(entries).len() > 0 {
        Some(path_text(entries))
    } else {
        None
    }
}

impl ClipboardItem {
    /// An item that holds one text.
    pub fn new_string(text: String) -> (item: ClipboardItem)
        ensures
            item@ == seq![EntryView::String(text@)],
    {
        let item = ClipboardItem { entries: vec![ClipboardEntry::String(ClipboardString::new(text))] };
        assert(item@ =~= seq![EntryView::String(text@)]);
        item
    }

    /// The entries of the item.
    pub fn entries(&self) -> (entries: &[ClipboardEntry])
        ensures
            entries@ == self.entries@,
    {
        self.entries.as_slice()
    }

    /// The text of the item, if it has any: its strings one after the other or, where
    /// they hold no text, its external paths one after the other.
    pub fn text(&self) -> (text: Option<String>)
        ensures
            opt_view(text) == item_text(self@),
    {
        let mut text = String::new();
        for i in 0..self.entries.len()
            invariant
                text@ == string_text(self@.take(i as int)),
        {
            assert(self@.take(i + 1).drop_last() =~= self@.take(i as int));
            if let ClipboardEntry::String(string) = &self.entries[i] {
                text.append(string.text.as_str());
            } else {
                assert(text@ + Seq::<char>::empty() =~= text@);
            }
        }
        assert(self@.take(self@.len() as int) =~= self@);
        if text.as_str().is_empty() {
            assert(text@ =~= Seq::<char>::empty());
            for i in 0..self.entries.len()
                invariant
                    text@ == path_text(self@.take(i as int)),
            {
                assert(self@.take(i + 1).drop_last() =~= self@.take(i as int));
                if let ClipboardEntry::ExternalPaths(paths) = &self.entries[i] {
                    let ghost before = text@;
                    for j in 0..paths.0.len()
                        invariant
                            text@ == before + concatenated(paths@.take(j as int)),
                    {
                        assert(paths@.take(j + 1).drop_last() =~= paths@.take(j as int));
                        text.append(paths.0[j].as_str());
                        assert(text@ =~= before + concatenated(paths@.take(j + 1)));
                    }
                    assert(paths@.take(paths@.len() as int) =~= paths@);
                } else {
                    assert(text@ + Seq::<char>::empty() =~= text@);
                }
            }
            assert(self@.take(self@.len() as int) =~= self@);
        }
        if text.as_str().is_empty() {
            None
        } else {
            Some(text)
        }
    }
}

/// One entry of a raw item: a payload and the name of the format that it is in.
#[derive(Debug, PartialEq, Eq)]
pub struct RawClipboardEntry {
    pub format: String,
    pub bytes: Vec<u8>,
}

impl View for RawClipboardEntry {
    type V = RawEntryView;

    open spec fn view(&self) -> RawEntryView {
        RawEntryView { format: self.format@, bytes: self.bytes@ }
    }
}

impl Clone for RawClipboardEntry {
    fn clone(&self) -> (res: Self)
        ensures
            res@ == self@,
    {
        let bytes = self.bytes.clone();
        assert(bytes@ =~= self.bytes@);
        RawClipboardEntry { format: self.format.clone(), bytes }
    }
}

/// What is on the clipboard, payload by payload.
#[derive(Debug, PartialEq, Eq)]
pub struct RawClipboardItem {
    pub entries: Vec<RawClipboardEntry>,
}

impl View for RawClipboardItem {
    type V = Seq<RawEntryView>;

    open spec fn view(&self) -> Seq<RawEntryView> {
        self.entries@.map_values(|entry: RawClipboardEntry| entry@)
    }
}

impl Clone for RawClipboardItem {
    fn clone(&self) -> (res: Self)
        ensures
            res@ == self@,
    {
        let res = RawClipboardItem { entries: self.entries.clone() };
        assert(res@ =~= self@);
        res
    }
}

/// An item reads as its entries, one for one and with everything that they hold.
pub proof fn law_items_read_as_their_entries(item: ClipboardItem)
    ensures
        item@.len() == item.entries@.len(),
        forall|i: int|
            0 <= i < item@.len() ==> #[trigger] item@[i] == match item.entries@[i] {
                ClipboardEntry::String(string) => EntryView::String(string.text@),
                ClipboardEntry::Image(image) => EntryView::Image {
                    format: image.format,
                    bytes: image.bytes@,
                    id: image.id,
                },
                ClipboardEntry::ExternalPaths(paths) => EntryView::ExternalPaths(
                    paths.0@.map_values(|path: String| path@),
                ),
            },
{
    assert forall|i: int| 0 <= i < item@.len() && item.entries@[i] is ExternalPaths implies
        #[trigger] item@[i] == EntryView::ExternalPaths(
        item.entries@[i]->ExternalPaths_0.0@.map_values(|path: String| path@),
    ) by {
        assert(texts(item.entries@[i]->ExternalPaths_0.0@)
            =~= item.entries@[i]->ExternalPaths_0.0@.map_values(|path: String| path@));
    }
}

/// A raw item reads as its entries, one for one and with everything that they hold.
pub proof fn law_raw_items_read_as_their_entries(raw: RawClipboardItem)
    ensures
        raw@.len() == raw.entries@.len(),
        forall|i: int|
            0 <= i < raw@.len() ==> #[trigger] raw@[i] == (RawEntryView {
                format: raw.entries@[i].format@,
                bytes: raw.entries@[i].bytes@,
            }),
{
}

/// Texts one after the other: nothing is left out, put in or moved.
pub proof fn law_concatenation_keeps_every_part(first: Seq<Seq<char>>, second: Seq<Seq<char>>)
    ensures
        concatenated(first + second) == concatenated(first) + concatenated(second),
        first.len() == 1 ==> concatenated(first) == first[0],
        first.len() == 0 ==> concatenated(first).len() == 0,
    decreases second.len(),
{
    if first.len() == 1 {
        assert(first.drop_last() =~= Seq::empty());
        assert(concatenated(first.drop_last()) =~= Seq::empty());
        assert(concatenated(first) =~= first[0]);
    }
    if second.len() == 0 {
        assert(first + second =~= first);
        assert(concatenated(first) + concatenated(second) =~= concatenated(first));
    } else {
        law_concatenation_keeps_every_part(first, second.drop_last());
        assert((first + second).drop_last() =~= first + second.drop_last());
        assert(concatenated(first + second) =~= concatenated(first) + concatenated(second));
    }
}

/// The text of the strings of two items put together is that of the first, followed by that of
/// the second. A single string has its own text, and other entries have none. So it is with
/// the paths.
pub proof fn law_texts_keep_every_entry(first: Seq<EntryView>, second: Seq<EntryView>)
    ensures
        string_text(first + second) == string_text(first) + string_text(second),
        path_text(first + second) == path_text(first) + path_text(second),
        first.len() == 0 ==> string_text(first).len() == 0 && path_text(first).len() == 0,
        first.len() == 1 ==> match first[0] {
            EntryView::String(text) => string_text(first) == text && path_text(first).len() == 0,
            EntryView::Image { .. } => string_text(first).len() == 0 && path_text(first).len()
                == 0,
            EntryView::ExternalPaths(paths) => string_text(first).len() == 0 && path_text(first)
                == concatenated(paths),
        },
    decreases second.len(),
{
    if first.len() == 1 {
        assert(first.drop_last() =~= Seq::empty());
        assert(string_text(first.drop_last()) =~= Seq::empty());
        assert(path_text(first.drop_last()) =~= Seq::empty());
        match first[0] {
            EntryView::String(text) => {
                assert(string_text(first) =~= text);
            },
            EntryView::Image { .. } => {},
            EntryView::ExternalPaths(paths) => {
                assert(path_text(first) =~= concatenated(paths));
            },
        }
    }
    if second.len() == 0 {
        assert(first + second =~= first);
        assert(string_text(first) + string_text(second) =~= string_text(first));
        assert(path_text(first) + path_text(second) =~= path_text(first));
    } else {
        law_texts_keep_every_entry(first, second.drop_last());
        assert((first + second).drop_last() =~= first + second.drop_last());
        assert((first + second).last() == second.last());
        assert(string_text(first + second) =~= string_text(first) + string_text(second));
        assert(path_text(first + second) =~= path_text(first) + path_text(second));
    }
}

/// Where an entry has text, so has the item.
proof fn lemma_entry_texts(entries: Seq<EntryView>)
    ensures
        string_text(entries).len() > 0 <==> exists|i: int|
            0 <= i < entries.len() && (#[trigger] entries[i]) is String
                && entries[i]->String_0.len() > 0,
        path_text(entries).len() > 0 <==> exists|i: int|
            0 <= i < entries.len() && (#[trigger] entries[i]) is ExternalPaths
                && concatenated(entries[i]->ExternalPaths_0).len() > 0,
    decreases entries.len(),
{
    if entries.len() > 0 {
        let rest = entries.drop_last();
        lemma_entry_texts(rest);
        assert(entries.last() == entries[entries.len() - 1]);
        if string_text(rest).len() > 0 {
            let i = choose|i: int|
                0 <= i < rest.len() && (#[trigger] rest[i]) is String && rest[i]->String_0.len()
                    > 0;
            assert(entries[i] == rest[i]);
        }
        if path_text(rest).len() > 0 {
            let i = choose|i: int|
                0 <= i < rest.len() && (#[trigger] rest[i]) is ExternalPaths && concatenated(
                    rest[i]->ExternalPaths_0,
                ).len() > 0;
            assert(entries[i] == rest[i]);
        }
        assert forall|i: int| 0 <= i < entries.len() && i != entries.len() - 1 implies rest[i]
            == #[trigger] entries[i] by {}
    }
}

/// The text of an item is that of its strings where one of them holds any, that of its paths
/// where no string does and a path does, and there is none otherwise.
pub proof fn law_text_comes_from_strings_before_paths(item: ClipboardItem, text: Option<String>)
    requires
        call_ensures(ClipboardItem::text, (&item,), text),
    ensures
        ({
            let strings = exists|i: int|
                0 <= i < item@.len() && (#[trigger] item@[i]) is String && item@[i]->String_0.len()
                    > 0;
            let paths = exists|i: int|
                0 <= i < item@.len() && (#[trigger] item@[i]) is ExternalPaths && concatenated(
                    item@[i]->ExternalPaths_0,
                ).len() > 0;
            &&& text is Some <==> strings || paths
            &&& strings ==> text->0@ == string_text(item@)
            &&& !strings && paths ==> text->0@ == path_text(item@)
        }),
{
    lemma_entry_texts(item@);
}

/// The text of an item of one string is that string, whatever it is, unless it is empty.
pub proof fn law_text_of_one_string(chars: Seq<char>)
    ensures
        chars.len() > 0 ==> item_text(seq![EntryView::String(chars)]) == Some(chars),
        chars.len() == 0 ==> item_text(seq![EntryView::String(chars)]) is None,
{
    let item = seq![EntryView::String(chars)];
    law_texts_keep_every_entry(item, Seq::empty());
}

/// Images do not change the text of an item, wherever they are in it.
pub proof fn law_images_have_no_text(
    before: Seq<EntryView>,
    after: Seq<EntryView>,
    format: ImageFormat,
    bytes: Seq<u8>,
    id: u64,
)
    ensures
        item_text(before + seq![EntryView::Image { format, bytes, id }] + after) == item_text(
            before + after,
        ),
{
    let image = seq![EntryView::Image { format, bytes, id }];
    law_texts_keep_every_entry(image, after);
    law_texts_keep_every_entry(before, image);
    law_texts_keep_every_entry(before + image, after);
    law_texts_keep_every_entry(before, after);
    assert(string_text(before) + string_text(image) =~= string_text(before));
    assert(path_text(before) + path_text(image) =~= path_text(before));
}

} // verus!
