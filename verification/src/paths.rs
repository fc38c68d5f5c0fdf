//! File system paths as text.
//!
//! What a path means rests on the platform. Its conventions are a value of their own,
//! [`PathStyle`], of which there is only the one of the running program; every statement about
//! a path names it.

use crate::text;
use path_absolutize::Absolutize;
use std::path::{Component, Path};
use vstd::prelude::*;

verus! {

/// The path conventions of the platform.
#[derive(Clone, Copy)]
pub struct PathStyle {
    separator: char,
}

impl View for PathStyle {
    type V = char;

    closed spec fn view(&self) -> char {
        self.separator
    }
}

/// `std::path::MAIN_SEPARATOR`. Which character it is rests on the platform.
#[verifier::external_body]
fn main_separator() -> (r: char)
{
    std::path::MAIN_SEPARATOR
}

impl PathStyle {
    /// The conventions of the running program.
    pub fn native() -> (r: Self) {
        PathStyle { separator: main_separator() }
    }
}

/// What `std::path::Path::join` makes of two paths.
pub uninterp spec fn joined_path(style: char, base: Seq<char>, tail: Seq<char>) -> Seq<char>;

/// Whether `std::path::Path` takes two texts for the same path.
pub uninterp spec fn same_path(style: char, a: Seq<char>, b: Seq<char>) -> bool;

/// What `std::path::Path::parent` gives.
pub uninterp spec fn parent_path(style: char, path: Seq<char>) -> Option<Seq<char>>;

/// What `std::path::Path::file_name` gives.
pub uninterp spec fn path_file_name(style: char, path: Seq<char>) -> Option<Seq<char>>;

/// What `std::path::Path::file_stem` gives.
pub uninterp spec fn path_file_stem(style: char, path: Seq<char>) -> Option<Seq<char>>;

/// What `std::path::Path::extension` gives.
pub uninterp spec fn path_extension(style: char, path: Seq<char>) -> Option<Seq<char>>;

/// Whether `std::path::Path::is_absolute` holds.
pub uninterp spec fn absolute_path(style: char, path: Seq<char>) -> bool;

/// Whether `std::path::Path::starts_with` holds.
pub uninterp spec fn path_begins_with(style: char, path: Seq<char>, base: Seq<char>) -> bool;

/// What `std::path::Path::strip_prefix` leaves.
pub uninterp spec fn path_below(style: char, path: Seq<char>, base: Seq<char>) -> Option<Seq<char>>;

/// The first component that `std::path::Path::components` yields, if any, and its name where it
/// is one.
pub uninterp spec fn first_component(style: char, path: Seq<char>) -> Option<Option<Seq<char>>>;

/// The relative path that `pathdiff::diff_paths` finds.
pub uninterp spec fn relative_path(style: char, path: Seq<char>, base: Seq<char>) -> Option<
    Seq<char>,
>;

/// The absolute path that `path_absolutize::Absolutize::absolutize_from` makes.
pub uninterp spec fn absolutized(style: char, path: Seq<char>, current_dir: Seq<char>) -> Seq<char>;

/// `std::path::Path::join`.
#[verifier::external_body]
pub(crate) fn join(style: &PathStyle, base: &str, tail: &str) -> (r: String)
    ensures
        r@ == joined_path(style@, base@, tail@),
{
    Path::new(base).join(tail).to_string_lossy().into_owned()
}

/// `==` of `std::path::Path`, which holds of equal texts.
#[verifier::external_body]
pub(crate) fn is_same(style: &PathStyle, a: &str, b: &str) -> (r: bool)
    ensures
        r == same_path(style@, a@, b@),
        a@ == b@ ==> r,
{
    Path::new(a) == Path::new(b)
}

/// `std::path::Path::parent`.
#[verifier::external_body]
pub(crate) fn parent(style: &PathStyle, path: &str) -> (r: Option<String>)
    ensures
        text::opt_text(r) == parent_path(style@, path@),
{
    Path::new(path).parent().map(|p| p.to_string_lossy().into_owned())
}

/// `std::path::Path::file_name`.
#[verifier::external_body]
pub(crate) fn file_name(style: &PathStyle, path: &str) -> (r: Option<String>)
    ensures
        text::opt_text(r) == path_file_name(style@, path@),
{
    Path::new(path).file_name().map(|p| p.to_string_lossy().into_owned())
}

/// `std::path::Path::file_stem`.
#[verifier::external_body]
pub(crate) fn file_stem(style: &PathStyle, path: &str) -> (r: Option<String>)
    ensures
        text::opt_text(r) == path_file_stem(style@, path@),
{
    Path::new(path).file_stem().map(|p| p.to_string_lossy().into_owned())
}

/// `std::path::Path::extension`.
#[verifier::external_body]
pub(crate) fn extension(style: &PathStyle, path: &str) -> (r: Option<String>)
    ensures
        text::opt_text(r) == path_extension(style@, path@),
{
    Path::new(path).extension().map(|p| p.to_string_lossy().into_owned())
}

/// `std::path::Path::is_absolute`.
#[verifier::external_body]
pub(crate) fn is_absolute(style: &PathStyle, path: &str) -> (r: bool)
    ensures
        r == absolute_path(style@, path@),
{
    Path::new(path).is_absolute()
}

/// `std::path::Path::starts_with`.
#[verifier::external_body]
pub(crate) fn begins_with(style: &PathStyle, path: &str, base: &str) -> (r: bool)
    ensures
        r == path_begins_with(style@, path@, base@),
{
    Path::new(path).starts_with(base)
}

/// `std::path::Path::strip_prefix`.
#[verifier::external_body]
pub(crate) fn below(style: &PathStyle, path: &str, base: &str) -> (r: Option<String>)
    ensures
        text::opt_text(r) == path_below(style@, path@, base@),
{
    Path::new(path).strip_prefix(base).ok().map(|p| p.to_string_lossy().into_owned())
}

/// The first of `std::path::Path::components`, with its name where it is `Component::Normal`.
#[verifier::external_body]
pub(crate) fn leading_component(style: &PathStyle, path: &str) -> (r: Option<Option<String>>)
    ensures
        (match r {
            Some(name) => Some(text::opt_text(name)),
            None => None,
        }) == first_component(style@, path@),
{
    match Path::new(path).components().next() {
        Some(Component::Normal(name)) => Some(Some(name.to_string_lossy().into_owned())),
        Some(_) => Some(None),
        None => None,
    }
}

/// `pathdiff::diff_paths`: the path that leads from `base` to `path`.
#[verifier::external_body]
pub(crate) fn diff(style: &PathStyle, path: &str, base: &str) -> (r: Option<String>)
    ensures
        text::opt_text(r) == relative_path(style@, path@, base@),
{
    pathdiff::diff_paths(path, base).map(|p| p.to_string_lossy().into_owned())
}

/// The platform's conventions together with the current directory of the program.
pub struct PathContext {
    style: PathStyle,
    current_dir: String,
}

impl PathContext {
    /// The current directory is an absolute path.
    #[verifier::type_invariant]
    spec fn current_dir_is_absolute(self) -> bool {
        absolute_path(self.style@, self.current_dir@)
    }

    /// The conventions.
    pub closed spec fn style_view(self) -> char {
        self.style@
    }

    /// The current directory.
    pub closed spec fn current_dir_view(self) -> Seq<char> {
        self.current_dir@
    }

    /// The absolute form of a path.
    pub open spec fn absolute(self, path: Seq<char>) -> Seq<char> {
        absolutized(self.style_view(), path, self.current_dir_view())
    }

    /// The conventions with this current directory, where it is an absolute path.
    pub fn new(style: PathStyle, current_dir: String) -> (r: Option<Self>)
        ensures
            r is Some <==> absolute_path(style@, current_dir@),
            r is Some ==> r->0.style_view() == style@ && r->0.current_dir_view() == current_dir@,
    {
        if is_absolute(&style, current_dir.as_str()) {
            Some(PathContext { style, current_dir })
        } else {
            None
        }
    }

    /// The conventions.
    pub fn style(&self) -> (r: PathStyle)
        ensures
            r@ == self.style_view(),
    {
        self.style
    }

    /// The absolute form of a path.
    pub fn absolutize(&self, path: &str) -> (r: String)
        ensures
            r@ == self.absolute(path@),
    {
        proof {
            use_type_invariant(self);
        }
        absolutize_from(&self.style, path, self.current_dir.as_str())
    }
}

/// `path_absolutize::Absolutize::absolutize_from`, which refuses no path.
#[verifier::external_body]
fn absolutize_from(style: &PathStyle, path: &str, current_dir: &str) -> (r: String)
    requires
        absolute_path(style@, current_dir@),
    ensures
        r@ == absolutized(style@, path@, current_dir@),
{
    Path::new(path).absolutize_from(current_dir).unwrap().to_string_lossy().into_owned()
}

} // verus!
