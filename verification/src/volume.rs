//! A small tmpfs, to test a restore destination that has no free space.
//!
//! The caller mounts the tmpfs in its own user namespace and mount namespace.

use vstd::prelude::*;

use crate::text::{self, decimal_text, owned, push_decimal};

verus! {

/// What a process writes to deny changes of its groups.
pub const SETGROUPS_DENY: &'static str = "deny";

/// The line that maps the ID `id` to the same ID in a new user namespace.
pub open spec fn id_map_text(id: nat) -> Seq<char> {
    text::decimal(id) + " "@ + text::decimal(id) + " 1"@
}

/// Gives the line that maps the ID `id` to the same ID in a new user namespace.
///
/// A process in a new user namespace that has no map has the overflow IDs, and the kernel lets it
/// map only the IDs that it had before the namespace.
pub fn id_map(id: u32) -> (r: String)
    ensures
        r@ == id_map_text(id as nat),
{
    let mut out = decimal_text(id as u64);
    out.append(" ");
    push_decimal(&mut out, id as u64);
    out.append(" 1");
    assert(out@ =~= id_map_text(id as nat));
    out
}

/// A file that a process writes after it entered a new user namespace.
#[derive(Debug)]
pub struct NamespaceFile {
    /// The path of the file.
    pub path: &'static str,
    /// The content.
    pub content: String,
}

/// Gives the files that map the IDs `uid` and `gid` of this process, in the order of their writes.
///
/// The kernel lets a process without privileges write its group map only after it denied changes of
/// its groups.
pub fn write_id_maps(uid: u32, gid: u32) -> (r: [NamespaceFile; 3])
    ensures
        r@[0].path@ == "/proc/self/uid_map"@,
        r@[0].content@ == id_map_text(uid as nat),
        r@[1].path@ == "/proc/self/setgroups"@,
        r@[1].content@ == SETGROUPS_DENY@,
        r@[2].path@ == "/proc/self/gid_map"@,
        r@[2].content@ == id_map_text(gid as nat),
{
    [
        NamespaceFile { path: "/proc/self/uid_map", content: id_map(uid) },
        NamespaceFile { path: "/proc/self/setgroups", content: owned(SETGROUPS_DENY) },
        NamespaceFile { path: "/proc/self/gid_map", content: id_map(gid) },
    ]
}

/// A tmpfs on a directory.
#[derive(Debug)]
pub struct Tmpfs {
    path: String,
}

impl Tmpfs {
    /// The directory that holds the tmpfs.
    pub closed spec fn path_text(&self) -> Seq<char> {
        self.path@
    }

    /// The mount options of a tmpfs of `size` bytes.
    pub open spec fn options_text(size: nat) -> Seq<char> {
        "size="@ + text::decimal(size)
    }

    /// Gives the mount options of a tmpfs of `size` bytes.
    ///
    /// A write that needs more space than the tmpfs has fails, as on a full volume. A change of the
    /// length of a file does not use space, as on a full volume.
    pub fn options(size: u64) -> (r: String)
        ensures
            r@ == Self::options_text(size as nat),
    {
        let mut out = owned("size=");
        push_decimal(&mut out, size);
        out
    }

    /// Gives the value for a tmpfs that is mounted on the directory `path`.
    pub fn mounted(path: &str) -> (r: Self)
        ensures
            r.path_text() == path@,
    {
        Tmpfs { path: owned(path) }
    }

    /// Gives the directory that holds the tmpfs.
    pub fn path(&self) -> (r: &str)
        ensures
            r@ == self.path_text(),
    {
        self.path.as_str()
    }
}

/// The map of an ID has the ID, the same ID, and the length 1, with spaces between them.
pub proof fn law_map_is_of_one_id(id: u32, map: String, number: String)
    requires
        call_ensures(id_map, (id,), map),
        call_ensures(decimal_text, (id as u64,), number),
    ensures
        map@ == number@ + seq![' '] + number@ + seq![' ', '1'],
{
    reveal_strlit(" ");
    reveal_strlit(" 1");
    assert(map@ =~= number@ + seq![' '] + number@ + seq![' ', '1']);
}

/// The group map comes after the denial of group changes. The user map is of the user ID, and the
/// group map is of the group ID.
pub proof fn law_id_maps_are_of_their_ids(
    uid: u32,
    gid: u32,
    files: [NamespaceFile; 3],
    user: String,
    group: String,
)
    requires
        call_ensures(write_id_maps, (uid, gid), files),
        call_ensures(id_map, (uid,), user),
        call_ensures(id_map, (gid,), group),
    ensures
        files@[0].content@ == user@,
        files@[1].content@ == SETGROUPS_DENY@,
        files@[2].content@ == group@,
{
}

/// The mount options of two sizes are equal only if the sizes are.
pub proof fn law_options_tell_the_size(a: u64, x: String, b: u64, y: String)
    requires
        call_ensures(Tmpfs::options, (a,), x),
        call_ensures(Tmpfs::options, (b,), y),
        x@ == y@,
    ensures
        a == b,
{
    reveal_strlit("size=");
    assert(x@.skip(5) =~= text::decimal(a as nat));
    assert(y@.skip(5) =~= text::decimal(b as nat));
    text::law_decimal_identifies(a as nat, b as nat);
}

} // verus!
