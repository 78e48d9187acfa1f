//! What the now-playing widget is for: a picture that is looked for when it
//! may be there, and one that is safe to decode.
use crate::helper_proto::MediaModel;
use crate::moment::Moment;
use crate::now_playing::{
    png_is_safe, png_start, room_spec, RendererModel, WidgetBounds,
};
use crate::paths::{icon_paths, kind_spec, load_step, ImageKind, LoadStep};
use crate::scalar::{whole, whole_numbers_keep_their_order, Scalar};
use vstd::prelude::*;

verus! {

/// A region of less than 180 pixels shows no widget; a wider one gives it
/// all its room, up to 440 pixels.
pub proof fn regions_give_their_room(width: Scalar)
    requires
        !width.nan(),
    ensures
        room_spec(width) is None <==> width.below(whole(180)),
        !width.below(whole(180)) && !whole(440).below(width) ==> room_spec(width) == Some(width),
        whole(440).below(width) ==> room_spec(width) == Some(whole(440)),
{
    whole_numbers_keep_their_order(180, 440);
    whole_numbers_keep_their_order(440, 180);
}

/// A place is on the widget from edge to edge, the edges among them.
pub proof fn edges_belong_to_the_widget(b: WidgetBounds, x: Scalar, y: Scalar)
    ensures
        b.holds(x, y) <==> {
            &&& !x.nan() && !y.nan()
            &&& !b.left.nan() && !b.right.nan() && !b.top.nan() && !b.bottom.nan()
            &&& b.left.rank() <= x.rank() <= b.right.rank()
            &&& b.top.rank() <= y.rank() <= b.bottom.rank()
        },
{
}

/// Art that was found is not looked for again while its track plays.
pub proof fn found_art_is_kept(r: RendererModel, media: MediaModel, now: Moment, later: Moment)
    requires
        media.art_path is Some,
    ensures
        r.art_loaded(media, true, now).has_art,
        r.art_loaded(media, true, now).media == Some(media),
        !r.art_loaded(media, true, now).needs_reload(media, later),
{
}

/// Art that was not found is looked for again after five seconds, and not
/// before.
pub proof fn missing_art_is_tried_again(
    r: RendererModel,
    media: MediaModel,
    now: Moment,
    later: Moment,
)
    requires
        media.art_path is Some,
        now.nanos <= u64::MAX - 5_000_000_000,
    ensures
        !r.art_loaded(media, false, now).has_art,
        r.art_loaded(media, false, now).needs_reload(media, later) <==> later.nanos >= now.nanos
            + 5_000_000_000,
{
}

/// A track without art is not asked for it again.
pub proof fn tracks_without_art_are_left_alone(
    r: RendererModel,
    media: MediaModel,
    found: bool,
    now: Moment,
    later: Moment,
)
    requires
        media.art_path is None,
    ensures
        !r.art_loaded(media, found, now).has_art,
        !r.art_loaded(media, found, now).needs_reload(media, later),
{
}

/// Another track has its art looked for at once, whatever came of the last
/// one; where the widget lies does not matter to its art, nor its art to
/// where it lies.
pub proof fn another_track_has_other_art(
    r: RendererModel,
    media: MediaModel,
    other: MediaModel,
    found: bool,
    now: Moment,
    later: Moment,
    bounds: Option<WidgetBounds>,
)
    requires
        media != other,
    ensures
        r.art_loaded(media, found, now).needs_reload(other, later),
        r.media is None ==> r.needs_reload(other, later),
        r.art_loaded(media, found, now).bounds == r.bounds,
        r.art_loaded(media, found, now).generation == r.generation,
        r.with_bounds(bounds).bounds == bounds,
        r.with_bounds(bounds).media == r.media,
        r.with_bounds(bounds).has_art == r.has_art,
        r.with_bounds(bounds).retry_at == r.retry_at,
{
}

/// What may be decoded begins as every PNG file does, with a header of
/// thirteen bytes, and declares from one to 512 pixels each way.
pub proof fn safe_pictures_are_small(bytes: Seq<u8>)
    ensures
        png_is_safe(bytes) <==> {
            &&& bytes.len() >= 24
            &&& bytes[0] == 137 && bytes[1] == 'P' as u8 && bytes[2] == 'N' as u8 && bytes[3]
                == 'G' as u8
            &&& bytes[4] == 13 && bytes[5] == 10 && bytes[6] == 26 && bytes[7] == 10
            &&& bytes[8] == 0 && bytes[9] == 0 && bytes[10] == 0 && bytes[11] == 13
            &&& bytes[12] == 'I' as u8 && bytes[13] == 'H' as u8 && bytes[14] == 'D' as u8
                && bytes[15] == 'R' as u8
            &&& bytes[16] == 0 && bytes[17] == 0 && 1 <= bytes[18] * 256 + bytes[19] <= 512
            &&& bytes[20] == 0 && bytes[21] == 0 && 1 <= bytes[22] * 256 + bytes[23] <= 512
        },
{
    let start = png_start();
    if png_is_safe(bytes) {
        assert forall|i: int| 0 <= i < 16 implies #[trigger] bytes[i] == start[i] by {
            assert(bytes.take(16)[i] == start[i]);
        }
        assert(bytes[0] == start[0] && bytes[1] == start[1] && bytes[2] == start[2]);
    } else if bytes.len() >= 24 && forall|i: int| 0 <= i < 16 ==> #[trigger] bytes[i] == start[i] {
        assert(bytes.take(16) =~= start);
    }
}

/// A file is decoded as what its extension says; without one of the two it
/// is not decoded.
pub proof fn extensions_tell_pictures_apart(extension: Option<Seq<char>>)
    ensures
        kind_spec(extension) == ImageKind::Png <==> extension == Some("png"@),
        kind_spec(extension) == ImageKind::Svg <==> extension == Some("svg"@),
{
    reveal_strlit("png");
    reveal_strlit("svg");
    assert("png"@[0] == 'p');
    assert("svg"@[0] == 's');
}

/// An icon is looked for among the user's pictures before those that were
/// installed, and in each place as a drawing before a bitmap.
pub proof fn the_users_icons_come_first(name: Seq<char>)
    ensures
        icon_paths(name).len() == 4,
        icon_paths(name)[0] == "/etc/tiny-dfr/"@ + name + ".svg"@,
        icon_paths(name)[1] == "/etc/tiny-dfr/"@ + name + ".png"@,
        icon_paths(name)[2] == "/usr/share/tiny-dfr/"@ + name + ".svg"@,
        icon_paths(name)[3] == "/usr/share/tiny-dfr/"@ + name + ".png"@,
{
}

/// Looking goes on from place to place until one gives the picture, and
/// fails only behind the last one.
pub proof fn places_are_tried_in_turn(tried: usize, count: usize)
    ensures
        load_step(tried, true, count) == LoadStep::Done,
        tried < count ==> load_step(tried, false, count) == LoadStep::Try(tried),
        tried >= count ==> load_step(tried, false, count) == LoadStep::Fail,
{
}

} // verus!
