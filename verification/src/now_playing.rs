//! The now-playing widget: where it can be touched, when its art is loaded,
//! and which pictures are safe to decode.
use crate::helper_proto::{MediaModel, NowPlaying};
use crate::moment::{remainder, Moment};
use crate::scalar::{whole, whole_numbers_keep_their_order, Scalar};
use crate::text::{chars_of, same_text, string_of, text_model};
use vstd::prelude::*;
use vstd::string::StringExecFns;

verus! {

/// Largest picture file that is read.
pub const MAX_ART_BYTES: u64 = 2_097_152;

/// Largest picture that is decoded, in each direction.
pub const MAX_ART_DIMENSION_PX: u32 = 512;

/// How long a picture that failed to load is left alone.
pub const ART_RETRY_NANOS: u64 = 5_000_000_000;

/// Longest text that is considered once a line does not fit.
pub const MAX_LINE_CHARS: usize = 80;

/// The narrowest widget, and the narrowest region that shows one.
pub const MIN_WIDGET_WIDTH_PX: i32 = 180;

/// The widest widget.
pub const MAX_WIDGET_WIDTH_PX: i32 = 440;

/// The narrowest line of text.
pub const MIN_TEXT_WIDTH_PX: i32 = 24;

/// The room for the widget in a region: none where the region is too
/// narrow, and never more than the widest widget needs.
pub open spec fn room_spec(region_width: Scalar) -> Option<Scalar> {
    if region_width.below(whole(MIN_WIDGET_WIDTH_PX as int)) {
        None
    } else if region_width.nan() || whole(MAX_WIDGET_WIDTH_PX as int).below(region_width) {
        Some(whole(MAX_WIDGET_WIDTH_PX as int))
    } else {
        Some(region_width)
    }
}

/// The room for the widget in a region.
pub fn widget_room(region_width: Scalar) -> (r: Option<Scalar>)
    ensures
        r == room_spec(region_width),
        r matches Some(room) ==> !room.nan() && !room.below(whole(MIN_WIDGET_WIDTH_PX as int)),
{
    proof {
        whole_numbers_keep_their_order(
            MIN_WIDGET_WIDTH_PX as int,
            MAX_WIDGET_WIDTH_PX as int,
        );
    }
    let widest = Scalar::from_whole(MAX_WIDGET_WIDTH_PX);
    if region_width.lt(Scalar::from_whole(MIN_WIDGET_WIDTH_PX)) {
        None
    } else if region_width.is_nan() || widest.lt(region_width) {
        Some(widest)
    } else {
        Some(region_width)
    }
}

/// The width of a widget whose content wants `content`, within its room.
pub fn widget_width_for(content: Scalar, room: Scalar) -> (r: Scalar)
    requires
        !room.nan(),
        !room.below(whole(MIN_WIDGET_WIDTH_PX as int)),
    ensures
        r == content.clamped(whole(MIN_WIDGET_WIDTH_PX as int), room),
{
    content.clamp(Scalar::from_whole(MIN_WIDGET_WIDTH_PX), room)
}

/// Whether the space that is left for text is worth using.
pub fn text_fits(text_width: Scalar) -> (r: bool)
    ensures
        r == !text_width.below(whole(MIN_TEXT_WIDTH_PX as int)),
{
    !text_width.lt(Scalar::from_whole(MIN_TEXT_WIDTH_PX))
}

/// A widget that is shown is never wider than its region or than the widest
/// widget, and never narrower than the narrowest.
pub proof fn widgets_stay_in_their_room(region_width: Scalar, content: Scalar)
    requires
        !region_width.nan(),
        !content.nan(),
        room_spec(region_width) is Some,
    ensures
        ({
            let narrowest = whole(MIN_WIDGET_WIDTH_PX as int);
            let width = content.clamped(narrowest, room_spec(region_width)->0);
            &&& !region_width.below(width)
            &&& !whole(MAX_WIDGET_WIDTH_PX as int).below(width)
            &&& !width.below(narrowest)
        }),
{
    whole_numbers_keep_their_order(MIN_WIDGET_WIDTH_PX as int, MAX_WIDGET_WIDTH_PX as int);
}

/// Where the widget lies. `width` and `height` are the distances between
/// the edges, as far as they can be told apart.
#[derive(Clone, Copy, Debug, PartialEq, Eq, Structural)]
pub struct WidgetBounds {
    pub left: Scalar,
    pub top: Scalar,
    pub right: Scalar,
    pub bottom: Scalar,
    pub width: Scalar,
    pub height: Scalar,
}

impl WidgetBounds {
    /// Edges count as inside; what is no number is outside.
    pub open spec fn holds(self, x: Scalar, y: Scalar) -> bool {
        reaches(x, self.left) && reaches(self.right, x) && reaches(y, self.top) && reaches(
            self.bottom,
            y,
        )
    }

    pub fn contains(self, x: Scalar, y: Scalar) -> (r: bool)
        ensures
            r == self.holds(x, y),
    {
        at_least(x, self.left) && at_least(self.right, x) && at_least(y, self.top) && at_least(
            self.bottom,
            y,
        )
    }
}

/// `a` is `b` or above it.
pub open spec fn reaches(a: Scalar, b: Scalar) -> bool {
    b.below(a) || a.same(b)
}

fn at_least(a: Scalar, b: Scalar) -> (r: bool)
    ensures
        r == reaches(a, b),
{
    b.lt(a) || a.same_as(b)
}

#[derive(Debug)]
pub struct NowPlayingRenderer {
    /// The track whose art was loaded last.
    pub cached_art_media: Option<NowPlaying>,
    /// Whether loading it gave a picture.
    pub has_art: bool,
    pub art_retry_at: Option<Moment>,
    pub last_bounds: Option<WidgetBounds>,
    pub bounds_generation: u64,
}

#[verifier::ext_equal]
pub struct RendererModel {
    pub media: Option<MediaModel>,
    pub has_art: bool,
    pub retry_at: Option<Moment>,
    pub bounds: Option<WidgetBounds>,
    pub generation: u64,
}

impl View for NowPlayingRenderer {
    type V = RendererModel;

    open spec fn view(&self) -> RendererModel {
        RendererModel {
            media: crate::helper_proto::media_model(self.cached_art_media),
            has_art: self.has_art,
            retry_at: self.art_retry_at,
            bounds: self.last_bounds,
            generation: self.bounds_generation,
        }
    }
}

/// Whether new bounds make a touch on the old ones void: the widget appeared
/// or vanished, or changed its size. Moving it does not.
pub open spec fn voids(old: Option<WidgetBounds>, new: Option<WidgetBounds>) -> bool {
    match (old, new) {
        (None, None) => false,
        (Some(a), Some(b)) => !a.width.same(b.width) || !a.height.same(b.height),
        _ => true,
    }
}

fn same_option(a: &Option<String>, b: &Option<String>) -> (r: bool)
    ensures
        r == (text_model(*a) == text_model(*b)),
{
    match (a, b) {
        (Some(a), Some(b)) => same_text(a.as_str(), b.as_str()),
        (None, None) => true,
        _ => false,
    }
}

fn same_media(a: &NowPlaying, b: &NowPlaying) -> (r: bool)
    ensures
        r == (a@ == b@),
{
    same_text(a.title.as_str(), b.title.as_str()) && same_text(
        a.artist.as_str(),
        b.artist.as_str(),
    ) && same_option(&a.art_path, &b.art_path)
}

impl RendererModel {
    pub open spec fn needs_reload(self, media: MediaModel, now: Moment) -> bool {
        self.media != Some(media) || (self.retry_at matches Some(at) && now.nanos >= at.nanos)
    }

    pub open spec fn with_bounds(self, bounds: Option<WidgetBounds>) -> RendererModel {
        RendererModel {
            bounds,
            generation: if voids(self.bounds, bounds) {
                if self.generation == u64::MAX {
                    0
                } else {
                    (self.generation + 1) as u64
                }
            } else {
                self.generation
            },
            ..self
        }
    }

    /// After the art of a track was looked for at `now`.
    pub open spec fn art_loaded(self, media: MediaModel, found: bool, now: Moment) -> RendererModel {
        let has_art = media.art_path is Some && found;
        RendererModel {
            media: Some(media),
            has_art,
            retry_at: if media.art_path is Some && !has_art {
                Some(Moment { nanos: (now.nanos + ART_RETRY_NANOS) as u64 })
            } else {
                None
            },
            ..self
        }
    }
}

impl NowPlayingRenderer {
    pub fn new() -> (r: NowPlayingRenderer)
        ensures
            r@ == (RendererModel {
                media: None,
                has_art: false,
                retry_at: None,
                bounds: None,
                generation: 0,
            }),
    {
        NowPlayingRenderer {
            cached_art_media: None,
            has_art: false,
            art_retry_at: None,
            last_bounds: None,
            bounds_generation: 0,
        }
    }

    /// Whether the widget is at a place.
    pub fn hit_test(&self, x: Scalar, y: Scalar) -> (r: bool)
        ensures
            r == (self@.bounds matches Some(b) && b.holds(x, y)),
    {
        match self.last_bounds {
            Some(bounds) => bounds.contains(x, y),
            None => false,
        }
    }

    /// What a finger that comes down on the widget holds until it is
    /// lifted.
    pub fn touch_token(&self, x: Scalar, y: Scalar) -> (r: Option<u64>)
        ensures
            r == (if self@.bounds matches Some(b) && b.holds(x, y) {
                Some(self@.generation)
            } else {
                None
            }),
    {
        if self.hit_test(x, y) {
            Some(self.bounds_generation)
        } else {
            None
        }
    }

    /// Whether what a finger holds still means this widget.
    pub fn token_is_current(&self, token: u64) -> (r: bool)
        ensures
            r == (self@.bounds is Some && token == self@.generation),
    {
        self.last_bounds.is_some() && token == self.bounds_generation
    }

    /// The widget was drawn elsewhere, or not at all.
    pub fn set_bounds(&mut self, bounds: Option<WidgetBounds>)
        ensures
            final(self)@ == old(self)@.with_bounds(bounds),
    {
        let voided = match (self.last_bounds, bounds) {
            (None, None) => false,
            (Some(a), Some(b)) => !a.width.same_as(b.width) || !a.height.same_as(b.height),
            _ => true,
        };
        self.last_bounds = bounds;
        if voided {
            self.bounds_generation = if self.bounds_generation == u64::MAX {
                0
            } else {
                self.bounds_generation + 1
            };
        }
    }

    /// Whether art has to be looked for: another track, or time to try
    /// again.
    pub fn art_cache_needs_reload(&self, media: &NowPlaying, now: Moment) -> (r: bool)
        ensures
            r == self@.needs_reload(media@, now),
    {
        let same = match &self.cached_art_media {
            Some(cached) => same_media(cached, media),
            None => false,
        };
        let retry = match self.art_retry_at {
            Some(at) => now.nanos >= at.nanos,
            None => false,
        };
        !same || retry
    }

    /// The art of a track was looked for, and `found` or not. Where there
    /// should be one it is tried again later.
    pub fn art_loaded(&mut self, media: &NowPlaying, found: bool, now: Moment)
        requires
            now.nanos <= u64::MAX - ART_RETRY_NANOS,
        ensures
            final(self)@ == old(self)@.art_loaded(media@, found, now),
    {
        self.cached_art_media = Some(media.clone());
        self.has_art = media.art_path.is_some() && found;
        self.art_retry_at = if media.art_path.is_some() && !self.has_art {
            Some(Moment { nanos: now.nanos + ART_RETRY_NANOS })
        } else {
            None
        };
    }

    /// How long to wait before art is looked for again, in nanoseconds; none
    /// where nothing waits for it.
    pub fn art_retry_wait(&self, media: Option<&NowPlaying>, now: Moment) -> (r: Option<u64>)
        ensures
            match media {
                Some(m) if self@.bounds is Some && self@.media == Some(m@) && !self@.has_art
                    && m@.art_path is Some && self@.retry_at is Some => r matches Some(wait)
                    && wait == remainder(self@.retry_at->0.nanos as nat, now.nanos as nat),
                _ => r is None,
            },
    {
        match media {
            Some(m) => {
                let same = match &self.cached_art_media {
                    Some(cached) => same_media(cached, m),
                    None => false,
                };
                if self.last_bounds.is_none() || !same || self.has_art || m.art_path.is_none() {
                    return None;
                }
                match self.art_retry_at {
                    Some(at) => Some(at.since(now)),
                    None => None,
                }
            },
            None => None,
        }
    }
}

/// A touch survives exactly as long as the widget stays visible with the
/// same size, wherever it moves.
pub proof fn moving_keeps_a_touch(
    r: RendererModel,
    bounds: Option<WidgetBounds>,
)
    requires
        r.bounds is Some,
    ensures
        (r.with_bounds(bounds).bounds is Some && r.with_bounds(bounds).generation == r.generation)
            <==> (bounds matches Some(b) && r.bounds->0.width.same(b.width)
            && r.bounds->0.height.same(b.height)),
{
}

/// A widget that is hidden cannot be touched, and a finger that came down
/// on it before does not mean it any more, not even when it is shown again.
pub proof fn hidden_widgets_forget_their_touches(r: RendererModel, shown_again: WidgetBounds)
    requires
        r.bounds is Some,
    ensures
        r.with_bounds(None).bounds is None,
        r.with_bounds(None).generation != r.generation,
        r.with_bounds(None).with_bounds(Some(shown_again)).generation != r.generation,
{
}

/// Whether an opened picture file may be read: a plain file that is not too
/// large.
pub fn art_file_acceptable(is_file: bool, bytes: u64) -> (r: bool)
    ensures
        r == (is_file && bytes <= MAX_ART_BYTES),
{
    is_file && bytes <= MAX_ART_BYTES
}

/// A picture file that was read up to one byte beyond the limit: kept only
/// where it does not exceed it, however much the file has grown meanwhile.
pub fn read_art_snapshot(bytes: Vec<u8>) -> (r: Option<Vec<u8>>)
    ensures
        r is Some <==> bytes@.len() <= MAX_ART_BYTES,
        r matches Some(kept) ==> kept@ == bytes@,
{
    if bytes.len() as u64 <= MAX_ART_BYTES {
        Some(bytes)
    } else {
        None
    }
}

/// Four bytes as a number, the highest first.
pub open spec fn big_endian(bytes: Seq<u8>, at: int) -> int {
    bytes[at] * 0x100_0000 + bytes[at + 1] * 0x1_0000 + bytes[at + 2] * 0x100 + bytes[at + 3]
}

/// The eight bytes that every PNG file begins with, and the header of the
/// chunk that must follow.
pub open spec fn png_start() -> Seq<u8> {
    seq![
        0x89u8,
        0x50,
        0x4e,
        0x47,
        0x0d,
        0x0a,
        0x1a,
        0x0a,
        0,
        0,
        0,
        13,
        0x49,
        0x48,
        0x44,
        0x52,
    ]
}

/// A PNG file whose picture is not empty and not too large.
pub open spec fn png_is_safe(bytes: Seq<u8>) -> bool {
    &&& bytes.len() >= 24
    &&& bytes.take(16) == png_start()
    &&& 0 < big_endian(bytes, 16) <= MAX_ART_DIMENSION_PX
    &&& 0 < big_endian(bytes, 20) <= MAX_ART_DIMENSION_PX
}

fn read_big_endian(bytes: &Vec<u8>, at: usize) -> (r: u32)
    requires
        at <= 20,
        bytes@.len() >= 24,
    ensures
        r == big_endian(bytes@, at as int),
{
    let a: u32 = bytes[at] as u32;
    let b: u32 = bytes[at + 1] as u32;
    let c: u32 = bytes[at + 2] as u32;
    let d: u32 = bytes[at + 3] as u32;
    a * 0x100_0000 + b * 0x1_0000 + c * 0x100 + d
}

/// Checks the header of a PNG file before anything is allocated for it: a
/// small file may declare a huge picture.
pub fn png_dimensions_are_safe(bytes: &Vec<u8>) -> (r: bool)
    ensures
        r == png_is_safe(bytes@),
{
    if bytes.len() < 24 {
        return false;
    }
    let start: Vec<u8> = vec![
        0x89u8,
        0x50,
        0x4e,
        0x47,
        0x0d,
        0x0a,
        0x1a,
        0x0a,
        0,
        0,
        0,
        13,
        0x49,
        0x48,
        0x44,
        0x52,
    ];
    assert(start@ =~= png_start());
    let mut i: usize = 0;
    while i < 16
        invariant
            i <= 16,
            bytes@.len() >= 24,
            start@ == png_start(),
            start@.len() == 16,
            forall|j: int| 0 <= j < i ==> bytes@[j] == start@[j],
        decreases 16 - i,
    {
        if bytes[i] != start[i] {
            assert(bytes@.take(16)[i as int] != png_start()[i as int]);
            return false;
        }
        i = i + 1;
    }
    assert(bytes@.take(16) =~= png_start());
    let width: u32 = read_big_endian(bytes, 16);
    let height: u32 = read_big_endian(bytes, 20);
    width > 0 && height > 0 && width <= MAX_ART_DIMENSION_PX && height <= MAX_ART_DIMENSION_PX
}

/// Whether a decoded picture has an acceptable size.
pub fn decoded_size_acceptable(width: i32, height: i32) -> (r: bool)
    ensures
        r == (0 < width <= MAX_ART_DIMENSION_PX && 0 < height <= MAX_ART_DIMENSION_PX),
{
    width > 0 && height > 0 && width as u32 <= MAX_ART_DIMENSION_PX && height as u32
        <= MAX_ART_DIMENSION_PX
}

/// A line that does not fit, as it gets shorter: the first characters and
/// three dots.
#[derive(Debug)]
pub struct Ellipsis {
    chars: Vec<char>,
    left: usize,
}

pub struct EllipsisModel {
    pub chars: Seq<char>,
    pub left: nat,
}

impl View for Ellipsis {
    type V = EllipsisModel;

    closed spec fn view(&self) -> EllipsisModel {
        EllipsisModel { chars: self.chars@, left: self.left as nat }
    }
}

impl Ellipsis {
    #[verifier::type_invariant]
    closed spec fn inv(self) -> bool {
        self.left <= self.chars@.len()
    }

    /// Begins with at most eighty characters.
    pub fn new(text: &str) -> (r: Ellipsis)
        ensures
            r@.chars == text@,
            r@.left == (if text@.len() <= MAX_LINE_CHARS {
                text@.len()
            } else {
                MAX_LINE_CHARS as nat
            }),
    {
        let chars = chars_of(text);
        let left: usize = if chars.len() <= MAX_LINE_CHARS {
            chars.len()
        } else {
            MAX_LINE_CHARS
        };
        Ellipsis { chars, left }
    }

    /// The line to try next; none where no character is left.
    pub fn candidate(&self) -> (r: Option<String>)
        ensures
            r is None <==> self@.left == 0,
            r matches Some(line) ==> line@ == self@.chars.take(self@.left as int) + "..."@,
    {
        proof {
            use_type_invariant(self);
        }
        if self.left == 0 {
            return None;
        }
        let mut line = string_of(&self.chars, 0, self.left);
        assert(line@ =~= self.chars@.take(self.left as int));
        line.append("...");
        Some(line)
    }

    /// One character less.
    pub fn shrink(&mut self)
        requires
            old(self)@.left > 0,
        ensures
            final(self)@ == (EllipsisModel {
                left: (old(self)@.left - 1) as nat,
                ..old(self)@
            }),
    {
        proof {
            use_type_invariant(&*self);
        }
        self.left = self.left - 1;
    }
}

} // verus!
