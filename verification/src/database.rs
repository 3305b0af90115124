//! The databases folder: which names a database may have, where a name may
//! lead, and which files are databases.
use vstd::prelude::*;

use crate::text;

verus! {

// ---------------------------------------------------------------------------
// Names
// ---------------------------------------------------------------------------
/// Whether a name is a plain file name: one path component that is neither
/// `.` nor `..`.
pub open spec fn plain_file_name(name: Seq<char>) -> bool {
    &&& name.len() > 0
    &&& !name.contains('/')
    &&& name != "."@
    &&& name != ".."@
}

/// Whether a name is a plain file name.
pub fn is_plain_file_name(name: &str) -> (r: bool)
    ensures
        r == plain_file_name(name@),
{
    let chars: Vec<char> = text::to_chars(name);
    chars.len() > 0 && !text::contains_char(&chars, '/') && !text::same_text(name, ".")
        && !text::same_text(name, "..")
}

// ---------------------------------------------------------------------------
// Where a name leads
// ---------------------------------------------------------------------------
/// One component of a path, as the platform takes the path apart: a prefix such
/// as a drive, the root, `.`, `..`, or a name.
#[derive(Debug, Clone, Copy, PartialEq, Eq, Structural)]
pub enum PathPart {
    Prefix,
    Root,
    Current,
    Parent,
    Normal,
}

/// What the file system says of a name in the databases folder: nothing is
/// there, or something is. Of what is there, the folder and the target are
/// given by the components of their canonical paths, where they have one. A
/// link is something even where it leads to nothing; its target is then the
/// place where it points.
#[derive(Debug)]
pub enum Found {
    Absent,
    Present { folder: Option<Vec<Vec<u8>>>, target: Option<Vec<Vec<u8>>> },
}

/// Where a name in the databases folder leads: whether the platform takes it for
/// an absolute path, of which components, and what is found there.
#[derive(Debug)]
pub struct Location {
    pub absolute: bool,
    pub parts: Vec<PathPart>,
    pub found: Found,
}

/// Whether a path is relative and a single name.
pub open spec fn single_component(absolute: bool, parts: Seq<PathPart>) -> bool {
    !absolute && parts == seq![PathPart::Normal]
}

/// Whether a path is relative and a single name.
pub fn is_single_component(absolute: bool, parts: &Vec<PathPart>) -> (r: bool)
    ensures
        r == single_component(absolute, parts@),
{
    if !absolute && parts.len() == 1 && parts[0] == PathPart::Normal {
        proof {
            assert(parts@ =~= seq![PathPart::Normal]);
        }
        true
    } else {
        false
    }
}

/// A path with its components as sequences.
pub open spec fn path(components: Seq<Vec<u8>>) -> Seq<Seq<u8>> {
    components.map_values(|component: Vec<u8>| component@)
}

/// Whether `target` is `folder` with one component more.
pub open spec fn direct_child(folder: Seq<Seq<u8>>, target: Seq<Seq<u8>>) -> bool {
    target.len() == folder.len() + 1 && target.take(folder.len() as int) == folder
}

/// Whether nothing is there or what is there is a direct child of the folder.
pub open spec fn confined(found: Found) -> bool {
    match found {
        Found::Absent => true,
        Found::Present { folder: Some(folder), target: Some(target) } => direct_child(
            path(folder@),
            path(target@),
        ),
        _ => false,
    }
}

/// Whether a database name is safe: a plain file name, for the platform too,
/// that leads nowhere but into the folder.
pub open spec fn safe_database_name(name: Seq<char>, location: Location) -> bool {
    &&& plain_file_name(name)
    &&& single_component(location.absolute, location.parts@)
    &&& confined(location.found)
}

fn same_bytes(a: &Vec<u8>, b: &Vec<u8>) -> (r: bool)
    ensures
        r == (a@ == b@),
{
    if a.len() != b.len() {
        return false;
    }
    let mut i: usize = 0;
    while i < a.len()
        invariant
            i <= a.len(),
            a.len() == b.len(),
            forall|j: int| 0 <= j < i ==> a@[j] == b@[j],
        decreases a.len() - i,
    {
        if a[i] != b[i] {
            return false;
        }
        i = i + 1;
    }
    proof {
        assert(a@ =~= b@);
    }
    true
}

/// Whether `target` is `folder` with one component more.
pub fn is_direct_child(folder: &Vec<Vec<u8>>, target: &Vec<Vec<u8>>) -> (r: bool)
    ensures
        r == direct_child(path(folder@), path(target@)),
{
    if folder.len() >= target.len() || target.len() - folder.len() != 1 {
        return false;
    }
    let mut i: usize = 0;
    while i < folder.len()
        invariant
            i <= folder.len(),
            target.len() == folder.len() + 1,
            forall|j: int| 0 <= j < i ==> path(target@)[j] == #[trigger] path(folder@)[j],
        decreases folder.len() - i,
    {
        if !same_bytes(&folder[i], &target[i]) {
            proof {
                assert(path(target@).take(folder@.len() as int)[i as int] != path(folder@)[i as int]);
            }
            return false;
        }
        i = i + 1;
    }
    proof {
        assert(path(target@).take(folder@.len() as int) =~= path(folder@));
    }
    true
}

/// A database name is safe only if it is a single, non-traversing path
/// component that resolves to a direct child of the databases folder. This
/// rejects separators, absolute paths, "."/".." traversal, and symlinks that
/// escape the folder.
pub fn is_safe_database_name(name: &str, location: &Location) -> (r: bool)
    ensures
        r == safe_database_name(name@, *location),
{
    if !is_plain_file_name(name) || !is_single_component(location.absolute, &location.parts) {
        return false;
    }
    match &location.found {
        Found::Absent => true,
        Found::Present { folder: Some(folder), target: Some(target) } => {
            is_direct_child(folder, target)
        },
        _ => false,
    }
}

// ---------------------------------------------------------------------------
// Listing
// ---------------------------------------------------------------------------
/// The names of the files in which SQLite keeps transient state.
pub open spec fn sidecar(name: Seq<char>) -> bool {
    ||| text::has_suffix(name, "-wal"@)
    ||| text::has_suffix(name, "-shm"@)
    ||| text::has_suffix(name, "-journal"@)
}

/// SQLite keeps transient state in sidecar files (-wal, -shm, -journal).
pub fn is_sqlite_sidecar_file(name: &str) -> (r: bool)
    ensures
        r == sidecar(name@),
{
    text::ends_with(name, "-wal") || text::ends_with(name, "-shm") || text::ends_with(
        name,
        "-journal",
    )
}

/// An entry of the databases folder: its name, and whether it is a regular
/// file or leads to one.
#[derive(Debug)]
pub struct DirEntry {
    pub name: String,
    pub is_file: bool,
}

/// The names of the databases among the entries: regular files that are no
/// sidecars, in the order of the entries.
pub open spec fn database_names(entries: Seq<DirEntry>) -> Seq<Seq<char>>
    decreases entries.len(),
{
    if entries.len() == 0 {
        Seq::empty()
    } else {
        let names = database_names(entries.drop_last());
        let entry = entries.last();
        if entry.is_file && !sidecar(entry.name@) {
            names.push(entry.name@)
        } else {
            names
        }
    }
}

/// The names of the databases among the entries.
pub fn list_databases(entries: &Vec<DirEntry>) -> (r: Vec<String>)
    ensures
        text::strings(r@) == database_names(entries@),
{
    let mut names: Vec<String> = Vec::new();
    let mut i: usize = 0;
    proof {
        assert(text::strings(names@) =~= database_names(entries@.take(0)));
    }
    while i < entries.len()
        invariant
            i <= entries.len(),
            text::strings(names@) == database_names(entries@.take(i as int)),
        decreases entries.len() - i,
    {
        let ghost done = text::strings(names@);
        proof {
            assert(entries@.take(i + 1).drop_last() =~= entries@.take(i as int));
        }
        if entries[i].is_file && !is_sqlite_sidecar_file(&entries[i].name) {
            names.push(entries[i].name.clone());
            proof {
                assert(text::strings(names@) =~= done.push(entries@[i as int].name@));
            }
        }
        i = i + 1;
    }
    proof {
        assert(entries@.take(i as int) =~= entries@);
    }
    names
}

/// A name is listed exactly where a regular file has it and it is no sidecar's.
pub proof fn listed_names(entries: Seq<DirEntry>, name: Seq<char>)
    ensures
        database_names(entries).contains(name) <==> (!sidecar(name) && exists|i: int|
            0 <= i < entries.len() && (#[trigger] entries[i]).is_file && entries[i].name@ == name),
    decreases entries.len(),
{
    if entries.len() > 0 {
        let rest = entries.drop_last();
        let last = entries.last();
        let names = database_names(rest);
        listed_names(rest, name);
        if names.contains(name) {
            let i = choose|i: int|
                0 <= i < rest.len() && (#[trigger] rest[i]).is_file && rest[i].name@ == name;
            assert(entries[i] == rest[i]);
            let k = choose|k: int| 0 <= k < names.len() && names[k] == name;
            assert(database_names(entries)[k] == name);
        }
        if last.is_file && !sidecar(last.name@) {
            let all = database_names(entries);
            assert(all[all.len() - 1] == last.name@);
            if all.contains(name) && !names.contains(name) {
                let k = choose|k: int| 0 <= k < all.len() && all[k] == name;
                if k < names.len() {
                    assert(names[k] == name);
                }
                assert(entries[entries.len() - 1].name@ == name);
            }
        }
        if !sidecar(name) && exists|i: int|
            0 <= i < entries.len() && (#[trigger] entries[i]).is_file && entries[i].name@ == name {
            let i = choose|i: int|
                0 <= i < entries.len() && (#[trigger] entries[i]).is_file && entries[i].name@
                    == name;
            if i < rest.len() {
                assert(rest[i].is_file && rest[i].name@ == name);
            }
        }
    } else {
        assert(!database_names(entries).contains(name));
    }
}

} // verus!
