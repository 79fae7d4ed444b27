//! Paths as the library holds them: text, compared the way `std::path`
//! compares them.
use vstd::prelude::*;

verus! {

/// Names what `Path::eq` answers for two paths given as text (equality of
/// their components).
pub uninterp spec fn path_eq(a: Seq<char>, b: Seq<char>) -> bool;

/// Two texts name the same path: the same text always does, since `Path`'s
/// `==` is an equivalence (`Path` is `Eq`); for two different texts it is
/// what `Path::eq` answers.
pub open spec fn same_path(a: Seq<char>, b: Seq<char>) -> bool {
    a == b || path_eq(a, b)
}

/// Compares two paths with `std::path::Path`'s `==`, which compares their
/// components: the same text always gives equal paths, and the comparison is
/// symmetric. Which different texts name equal paths (`a/b` and `a//b/`, say)
/// is left to the name `path_eq`.
#[verifier::external_body]
pub(crate) fn paths_equal(a: &str, b: &str) -> (equal: bool)
    ensures
        a@ != b@ ==> equal == path_eq(a@, b@),
        equal == same_path(a@, b@),
        equal == same_path(b@, a@),
{
    std::path::Path::new(a) == std::path::Path::new(b)
}


/// What `Path::file_name` gives for a path written as text: its last
/// component when that is a normal one (shown as text), else `None` (a path
/// that ends in `..`, is a root, or is empty).
pub open spec fn file_name_of(path: Seq<char>) -> Option<Seq<char>> {
    let cs = components_of(path);
    if cs.len() > 0 && cs.last().0 == 4 {
        Some(cs.last().1)
    } else {
        None
    }
}

/// The last component of a path (`Path::file_name`), as text.
#[verifier::external_body]
pub(crate) fn path_file_name(path: &str) -> (name: Option<String>)
    ensures
        match file_name_of(path@) {
            Some(n) => name matches Some(x) && x@ == n,
            None => name is None,
        },
{
    std::path::Path::new(path).file_name().map(|n| n.to_string_lossy().into_owned())
}


/// One component of a path, as `std::path::Component` has it (texts are
/// shown as text).
#[derive(Debug)]
pub enum PathComponent {
    Prefix(String),
    RootDir,
    CurDir,
    ParentDir,
    Normal(String),
}

impl PathComponent {
    /// The component's place in `Component`'s order and its text.
    pub open spec fn key(&self) -> crate::order::ComponentKey {
        match self {
            PathComponent::Prefix(s) => (0, s@),
            PathComponent::RootDir => (1, seq![]),
            PathComponent::CurDir => (2, seq![]),
            PathComponent::ParentDir => (3, seq![]),
            PathComponent::Normal(s) => (4, s@),
        }
    }
}

pub open spec fn component_keys(v: Seq<PathComponent>) -> Seq<crate::order::ComponentKey> {
    v.map_values(|c: PathComponent| c.key())
}

/// Names the components `Path::components` gives for a path written as text.
pub uninterp spec fn components_of(path: Seq<char>) -> Seq<crate::order::ComponentKey>;

/// The components of a path (`Path::components`), variant by variant.
#[verifier::external_body]
pub(crate) fn path_components(path: &str) -> (components: Vec<PathComponent>)
    ensures
        component_keys(components@) == components_of(path@),
{
    std::path::Path::new(path).components().map(|c| match c {
        std::path::Component::Prefix(p) => PathComponent::Prefix(p.as_os_str().to_string_lossy().into_owned()),
        std::path::Component::RootDir => PathComponent::RootDir,
        std::path::Component::CurDir => PathComponent::CurDir,
        std::path::Component::ParentDir => PathComponent::ParentDir,
        std::path::Component::Normal(n) => PathComponent::Normal(n.to_string_lossy().into_owned()),
    }).collect()
}

} // verus!
