//! Laws of database names and of listing.
use vstd::prelude::*;

use crate::database;
use crate::database::{DirEntry, Found, Location, PathPart};
use crate::text;

verus! {

/// Whether a name is a plain file name: not empty, without a slash, and neither
/// one dot nor two.
pub open spec fn plain(name: Seq<char>) -> bool {
    &&& name.len() > 0
    &&& forall|i: int| 0 <= i < name.len() ==> #[trigger] name[i] != '/'
    &&& name != seq!['.']
    &&& name != seq!['.', '.']
}

pub proof fn lemma_plain(name: Seq<char>)
    ensures
        plain(name) <==> database::plain_file_name(name),
{
    reveal_strlit(".");
    reveal_strlit("..");
    assert("."@ =~= seq!['.']);
    assert(".."@ =~= seq!['.', '.']);
}

/// A name is plain exactly where it is not empty, has no slash, and is neither
/// the folder itself nor its parent.
pub proof fn plain_names_stay_in_the_folder(name: &str, r: bool)
    requires
        call_ensures(database::is_plain_file_name, (name,), r),
    ensures
        r <==> plain(name@),
{
    lemma_plain(name@);
}

/// A path is a single component exactly where it is relative and the platform
/// takes it for one name.
pub proof fn a_single_component_is_one_name(absolute: bool, parts: &Vec<PathPart>, r: bool)
    requires
        call_ensures(database::is_single_component, (absolute, parts), r),
    ensures
        r <==> !absolute && parts@.len() == 1 && parts@[0] == PathPart::Normal,
{
    if !absolute && parts@.len() == 1 && parts@[0] == PathPart::Normal {
        assert(parts@ =~= seq![PathPart::Normal]);
    }
}

/// A path is a direct child of a folder exactly where it has the folder's
/// components and one more.
pub proof fn a_direct_child_has_one_component_more(
    folder: &Vec<Vec<u8>>,
    target: &Vec<Vec<u8>>,
    r: bool,
)
    requires
        call_ensures(database::is_direct_child, (folder, target), r),
    ensures
        r <==> target@.len() == folder@.len() + 1 && forall|i: int|
            0 <= i < folder@.len() ==> (#[trigger] target@[i])@ == folder@[i]@,
{
    let a = database::path(folder@);
    let b = database::path(target@);
    let n = folder@.len() as int;
    assert(a.len() == n && b.len() == target@.len());
    assert(forall|i: int| 0 <= i < n ==> a[i] == (#[trigger] folder@[i])@);
    assert(forall|i: int| 0 <= i < b.len() ==> b[i] == (#[trigger] target@[i])@);
    if r {
        assert forall|i: int| 0 <= i < n implies (#[trigger] target@[i])@ == folder@[i]@ by {
            assert(b.take(n)[i] == a[i]);
            assert(b[i] == target@[i]@);
            assert(a[i] == folder@[i]@);
        }
    }
    if target@.len() == folder@.len() + 1 && forall|i: int|
        0 <= i < folder@.len() ==> (#[trigger] target@[i])@ == folder@[i]@ {
        assert forall|i: int| 0 <= i < n implies b.take(n)[i] == a[i] by {
            assert(target@[i]@ == folder@[i]@);
            assert(b[i] == target@[i]@);
            assert(a[i] == folder@[i]@);
        }
        assert(b.take(n) =~= a);
    }
}

/// A database name is safe exactly where it is plain, is one name for the
/// platform too, and leads to nothing or to a direct child of the folder. What
/// is there and has no canonical path, or whose folder has none, is not safe.
pub proof fn safe_names_lead_nowhere_else(
    name: &str,
    location: &Location,
    folder: &Vec<Vec<u8>>,
    target: &Vec<Vec<u8>>,
    is_child: bool,
    r: bool,
)
    requires
        call_ensures(database::is_safe_database_name, (name, location), r),
        call_ensures(database::is_direct_child, (folder, target), is_child),
        location.found matches Found::Present { folder: Some(f), target: Some(t) } ==> f == folder
            && t == target,
    ensures
        r <==> ({
            &&& plain(name@)
            &&& !location.absolute
            &&& location.parts@.len() == 1
            &&& location.parts@[0] == PathPart::Normal
            &&& match location.found {
                Found::Absent => true,
                Found::Present { folder: Some(_), target: Some(_) } => is_child,
                Found::Present { .. } => false,
            }
        }),
{
    lemma_plain(name@);
    if !location.absolute && location.parts@.len() == 1 && location.parts@[0] == PathPart::Normal {
        assert(location.parts@ =~= seq![PathPart::Normal]);
    }
}

/// Whether a text is another one with something before it.
pub open spec fn ends_in(s: Seq<char>, end: Seq<char>) -> bool {
    exists|head: Seq<char>| s == #[trigger] (head + end)
}

proof fn lemma_ends_in(s: Seq<char>, end: Seq<char>)
    ensures
        ends_in(s, end) <==> text::has_suffix(s, end),
{
    if text::has_suffix(s, end) {
        assert(s =~= s.take(s.len() - end.len()) + end);
    }
    if ends_in(s, end) {
        let head = choose|head: Seq<char>| s == #[trigger] (head + end);
        assert(s.skip(s.len() - end.len()) =~= end);
    }
}

/// A file is a sidecar exactly where its name ends in `-wal`, `-shm` or
/// `-journal`.
pub proof fn sidecars_are_known_by_their_ending(name: &str, r: bool)
    requires
        call_ensures(database::is_sqlite_sidecar_file, (name,), r),
    ensures
        r <==> ends_in(name@, "-wal"@) || ends_in(name@, "-shm"@) || ends_in(name@, "-journal"@),
{
    lemma_ends_in(name@, "-wal"@);
    lemma_ends_in(name@, "-shm"@);
    lemma_ends_in(name@, "-journal"@);
}

/// A listing has the names of the regular files that are no sidecars, as they
/// are and in the order of the folder's entries: one more entry adds its name
/// behind the others, or nothing.
pub proof fn a_listing_grows_with_the_folder(
    shorter: &Vec<DirEntry>,
    longer: &Vec<DirEntry>,
    entry: DirEntry,
    name: &str,
    is_sidecar: bool,
    few: Vec<String>,
    more: Vec<String>,
)
    requires
        longer@ == shorter@.push(entry),
        name@ == entry.name@,
        call_ensures(database::is_sqlite_sidecar_file, (name,), is_sidecar),
        call_ensures(database::list_databases, (shorter,), few),
        call_ensures(database::list_databases, (longer,), more),
    ensures
        shorter@.len() == 0 ==> few@.len() == 0,
        forall|i: int| 0 <= i < few@.len() ==> (#[trigger] more@[i])@ == few@[i]@,
        entry.is_file && !is_sidecar ==> more@.len() == few@.len() + 1 && more@[few@.len() as int]@
            == entry.name@,
        !entry.is_file || is_sidecar ==> more@.len() == few@.len(),
{
    let a = text::strings(few@);
    let b = text::strings(more@);
    assert(a.len() == few@.len() && b.len() == more@.len());
    assert(longer@.drop_last() =~= shorter@);
    assert forall|i: int| 0 <= i < few@.len() implies (#[trigger] more@[i])@ == few@[i]@ by {
        assert(a[i] == few@[i]@);
        assert(b[i] == more@[i]@);
    }
    if entry.is_file && !is_sidecar {
        assert(b[a.len() as int] == more@[a.len() as int]@);
    }
}

} // verus!
