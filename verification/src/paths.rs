//! File names of pictures, and what their paths say about them.
use crate::text::{chars_of, same_text, text_model};
use vstd::prelude::*;
use vstd::string::StringExecFns;

verus! {

/// Whether a path begins at the root.
pub open spec fn path_is_absolute(path: Seq<char>) -> bool {
    path.len() > 0 && path[0] == '/'
}

/// What follows the last dot of a path's file name.
pub uninterp spec fn path_extension(path: Seq<char>) -> Option<Seq<char>>;

/// A path without its last component.
pub uninterp spec fn path_parent(path: Seq<char>) -> Option<Seq<char>>;

/// Whether two paths have the same components.
pub uninterp spec fn same_components(a: Seq<char>, b: Seq<char>) -> bool;

/// Whether a path begins at the root.
fn is_absolute(path: &str) -> (r: bool)
    ensures
        r == path_is_absolute(path@),
{
    let chars = chars_of(path);
    chars.len() > 0 && chars[0] == '/'
}

/// `std::path::Path::extension`: depends on the path's text alone. How the
/// file name is found in it is not stated.
#[verifier::external_body]
fn extension(path: &str) -> (r: Option<String>)
    ensures
        text_model(r) == path_extension(path@),
{
    std::path::Path::new(path).extension().and_then(|e| e.to_str()).map(|e| e.to_string())
}

/// `std::path::Path::parent`: depends on the path's text alone. Where the
/// last component begins is not stated.
#[verifier::external_body]
fn parent(path: &str) -> (r: Option<String>)
    ensures
        text_model(r) == path_parent(path@),
{
    std::path::Path::new(path).parent().and_then(|p| p.to_str()).map(|p| p.to_string())
}

/// Equality of `std::path::Path`: depends on the two texts alone. Which
/// different texts name the same components is not stated.
#[verifier::external_body]
fn is_same_path(a: &str, b: &str) -> (r: bool)
    ensures
        r == same_components(a@, b@),
{
    std::path::Path::new(a) == std::path::Path::new(b)
}

/// How a picture is loaded.
#[derive(Clone, Copy, Debug, PartialEq, Eq, Structural)]
pub enum ImageKind {
    Png,
    Svg,
    Unknown,
}

/// The kind of picture that a file with this extension holds.
pub open spec fn kind_spec(extension: Option<Seq<char>>) -> ImageKind {
    match extension {
        Some(e) => if e == "png"@ {
            ImageKind::Png
        } else if e == "svg"@ {
            ImageKind::Svg
        } else {
            ImageKind::Unknown
        },
        None => ImageKind::Unknown,
    }
}

/// The kind of picture that a file with this extension holds.
pub fn kind_of_extension(extension: &Option<String>) -> (r: ImageKind)
    ensures
        r == kind_spec(text_model(*extension)),
{
    match extension {
        Some(e) => if same_text(e.as_str(), "png") {
            ImageKind::Png
        } else if same_text(e.as_str(), "svg") {
            ImageKind::Svg
        } else {
            ImageKind::Unknown
        },
        None => ImageKind::Unknown,
    }
}

/// The kind of picture that the file at a path holds.
pub fn image_kind(path: &str) -> (r: ImageKind)
    ensures
        r == kind_spec(path_extension(path@)),
{
    kind_of_extension(&extension(path))
}

/// Where an icon without a theme is looked for, in this order.
pub open spec fn icon_paths(name: Seq<char>) -> Seq<Seq<char>> {
    seq![
        "/etc/tiny-dfr/"@ + name + ".svg"@,
        "/etc/tiny-dfr/"@ + name + ".png"@,
        "/usr/share/tiny-dfr/"@ + name + ".svg"@,
        "/usr/share/tiny-dfr/"@ + name + ".png"@,
    ]
}

fn icon_path(dir: &str, name: &str, suffix: &str) -> (r: String)
    ensures
        r@ == dir@ + name@ + suffix@,
{
    let mut r = String::from_str(dir);
    r.append(name);
    r.append(suffix);
    r
}

/// Where an icon without a theme is looked for, in this order.
pub fn icon_locations(name: &str) -> (r: Vec<String>)
    ensures
        r@.len() == 4,
        forall|i: int| 0 <= i < 4 ==> (#[trigger] r@[i])@ == icon_paths(name@)[i],
{
    vec![
        icon_path("/etc/tiny-dfr/", name, ".svg"),
        icon_path("/etc/tiny-dfr/", name, ".png"),
        icon_path("/usr/share/tiny-dfr/", name, ".svg"),
        icon_path("/usr/share/tiny-dfr/", name, ".png"),
    ]
}

/// What to do about a picture that may lie at one of several places.
#[derive(Clone, Copy, Debug, PartialEq, Eq, Structural)]
pub enum LoadStep {
    /// The last attempt gave it.
    Done,
    /// Look at the place with this number.
    Try(usize),
    /// It is at none of them.
    Fail,
}

/// What to do after `tried` of `count` places, where `loaded` says whether
/// the last of them gave the picture.
pub open spec fn load_step(tried: usize, loaded: bool, count: usize) -> LoadStep {
    if loaded {
        LoadStep::Done
    } else if tried < count {
        LoadStep::Try(tried)
    } else {
        LoadStep::Fail
    }
}

/// What to do after `tried` of `count` places, where `loaded` says whether
/// the last of them gave the picture.
pub fn next_location(tried: usize, loaded: bool, count: usize) -> (r: LoadStep)
    ensures
        r == load_step(tried, loaded, count),
{
    if loaded {
        LoadStep::Done
    } else if tried < count {
        LoadStep::Try(tried)
    } else {
        LoadStep::Fail
    }
}

/// The place that gives a picture, going on step by step from the place
/// with the number `tried`, where `gives` says which places hold it.
pub open spec fn found_at(gives: Seq<bool>, tried: usize) -> Option<usize>
    recommends
        gives.len() <= usize::MAX,
    decreases gives.len() - tried,
{
    match load_step(tried, false, gives.len() as usize) {
        LoadStep::Try(i) if i == tried && i < gives.len() => if load_step(
            (i + 1) as usize,
            gives[i as int],
            gives.len() as usize,
        ) == LoadStep::Done {
            Some(i)
        } else {
            found_at(gives, (tried + 1) as usize)
        },
        _ => None,
    }
}

proof fn lemma_found_at(gives: Seq<bool>, tried: usize)
    requires
        tried <= gives.len() <= usize::MAX,
    ensures
        match found_at(gives, tried) {
            Some(i) => tried <= i < gives.len() && gives[i as int] && forall|j: int|
                tried <= j < i ==> !#[trigger] gives[j],
            None => forall|j: int| tried <= j < gives.len() ==> !#[trigger] gives[j],
        },
    decreases gives.len() - tried,
{
    if tried < gives.len() && !gives[tried as int] {
        lemma_found_at(gives, (tried + 1) as usize);
    }
}

/// The first place that holds a picture gives it, and it is missing only
/// where no place holds it.
pub proof fn the_first_picture_wins(gives: Seq<bool>)
    requires
        gives.len() <= usize::MAX,
    ensures
        match found_at(gives, 0) {
            Some(i) => i < gives.len() && gives[i as int] && forall|j: int|
                0 <= j < i ==> !#[trigger] gives[j],
            None => forall|j: int| 0 <= j < gives.len() ==> !#[trigger] gives[j],
        },
{
    lemma_found_at(gives, 0);
}

/// Whether album art may be opened: a PNG file that lies directly in the
/// media directory and is no symbolic link. `symlink` is `None` where the
/// file does not exist.
pub fn art_path_allowed(
    absolute: bool,
    kind: ImageKind,
    in_media_dir: bool,
    symlink: Option<bool>,
) -> (r: bool)
    ensures
        r == (absolute && kind == ImageKind::Png && in_media_dir && symlink == Some(false)),
{
    let regular = match symlink {
        Some(link) => !link,
        None => false,
    };
    let png = match kind {
        ImageKind::Png => true,
        _ => false,
    };
    absolute && png && in_media_dir && regular
}

/// A path lies directly in a directory.
pub open spec fn lies_in(path: Seq<char>, dir: Seq<char>) -> bool {
    path_parent(path) matches Some(p) && same_components(p, dir)
}

/// Whether the album art at `path` may be opened, where the media directory
/// is `dir`.
pub fn safe_art_path(path: &str, dir: &str, symlink: Option<bool>) -> (r: bool)
    ensures
        r == (path_is_absolute(path@) && kind_spec(path_extension(path@)) == ImageKind::Png
            && lies_in(path@, dir@) && symlink == Some(false)),
{
    let in_dir = match parent(path) {
        Some(p) => is_same_path(p.as_str(), dir),
        None => false,
    };
    art_path_allowed(is_absolute(path), image_kind(path), in_dir, symlink)
}

} // verus!
