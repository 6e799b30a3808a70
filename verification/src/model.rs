//! The entries of a tree, and the check of a restored tree.

use vstd::prelude::*;

use crate::sorted::{self, Key, Order, SortedMap};
use crate::text::{self, owned, push_decimal, same_text};
use crate::tree_path::{self, order_groups, TreePath};

verus! {

/// The kind and the content of an entry of a tree.
#[derive(Debug)]
pub enum Kind {
    /// A directory.
    Dir,
    /// A file with its content.
    File(Vec<u8>),
    /// A symlink with its target.
    Symlink(String),
}

/// What a [`Kind`] is.
pub ghost enum KindModel {
    /// A directory.
    Dir,
    /// A file.
    File(Seq<u8>),
    /// A symlink.
    Symlink(Seq<char>),
}

impl View for Kind {
    type V = KindModel;

    open spec fn view(&self) -> KindModel {
        match self {
            Kind::Dir => KindModel::Dir,
            Kind::File(data) => KindModel::File(data@),
            Kind::Symlink(target) => KindModel::Symlink(target@),
        }
    }
}

/// A modification time. It can be before the epoch.
#[derive(Debug, Clone, Copy, PartialEq, Eq, Structural)]
pub struct FileTime {
    /// The full seconds after the epoch.
    pub secs: i64,
    /// The nanoseconds after the full seconds.
    pub nanos: u32,
}

/// An entry of a tree, with the metadata that a restore must give.
#[derive(Debug)]
pub struct Entry {
    /// The kind and the content.
    pub kind: Kind,
    /// The permission bits. A symlink has none.
    pub mode: Option<u32>,
    /// The modification time.
    pub mtime: FileTime,
}

/// What an [`Entry`] is.
pub ghost struct EntryModel {
    /// The kind and the content.
    pub kind: KindModel,
    /// The permission bits.
    pub mode: Option<u32>,
    /// The modification time.
    pub mtime: FileTime,
}

impl View for Entry {
    type V = EntryModel;

    open spec fn view(&self) -> EntryModel {
        EntryModel { kind: self.kind@, mode: self.mode, mtime: self.mtime }
    }
}

/// The decimal text of `n`.
pub open spec fn signed_text(n: int) -> Seq<char> {
    if n < 0 {
        "-"@ + text::decimal((-n) as nat)
    } else {
        text::decimal(n as nat)
    }
}

/// The text of permission bits.
pub open spec fn mode_text(mode: Option<u32>) -> Seq<char> {
    match mode {
        Some(mode) => "Some("@ + text::decimal(mode as nat) + ")"@,
        None => "None"@,
    }
}

impl KindModel {
    /// The description of the kind, without the content.
    pub open spec fn description(self) -> Seq<char> {
        match self {
            KindModel::Dir => "directory"@,
            KindModel::File(data) => "file of "@ + text::decimal(data.len()) + " bytes"@,
            KindModel::Symlink(target) => "symlink to `"@ + target + "`"@,
        }
    }
}

impl EntryModel {
    /// The description of the entry, without the content.
    pub open spec fn description(self) -> Seq<char> {
        self.kind.description() + ", mode "@ + mode_text(self.mode)
            + ", mtime SystemTime { tv_sec: "@ + signed_text(self.mtime.secs as int)
            + ", tv_nsec: "@ + text::decimal(self.mtime.nanos as nat) + " }"@
    }
}

/// Tells if `a` and `b` hold the same bytes.
pub fn same_bytes(a: &Vec<u8>, b: &Vec<u8>) -> (r: bool)
    ensures
        r == (a@ == b@),
{
    if a.len() != b.len() {
        return false;
    }
    let n: usize = a.len();
    for i in 0..n
        invariant
            n == a.len(),
            n == b.len(),
            forall|j: int| 0 <= j < i ==> #[trigger] a@[j] == b@[j],
    {
        if a[i] != b[i] {
            assert(a@[i as int] != b@[i as int]);
            return false;
        }
    }
    assert(a@ =~= b@);
    true
}

impl Entry {
    /// Tells if this entry equals `other`.
    pub fn same(&self, other: &Entry) -> (r: bool)
        ensures
            r == (self@ == other@),
    {
        let kinds = match (&self.kind, &other.kind) {
            (Kind::Dir, Kind::Dir) => true,
            (Kind::File(a), Kind::File(b)) => same_bytes(a, b),
            (Kind::Symlink(a), Kind::Symlink(b)) => same_text(a.as_str(), b.as_str()),
            (_, _) => false,
        };
        kinds && self.mode == other.mode && self.mtime == other.mtime
    }

    /// Describes the entry without its content.
    pub fn describe(&self) -> (r: String)
        ensures
            r@ == self@.description(),
    {
        let mut out = String::new();
        match &self.kind {
            Kind::Dir => {
                out.append("directory");
            },
            Kind::File(data) => {
                out.append("file of ");
                push_decimal(&mut out, data.len() as u64);
                out.append(" bytes");
            },
            Kind::Symlink(target) => {
                out.append("symlink to `");
                out.append(target.as_str());
                out.append("`");
            },
        }
        assert(out@ =~= self@.kind.description());
        out.append(", mode ");
        match self.mode {
            Some(mode) => {
                out.append("Some(");
                push_decimal(&mut out, mode as u64);
                out.append(")");
            },
            None => {
                out.append("None");
            },
        }
        out.append(", mtime SystemTime { tv_sec: ");
        let secs: i64 = self.mtime.secs;
        if secs < 0 {
            out.append("-");
            push_decimal(&mut out, (-(secs as i128)) as u64);
        } else {
            push_decimal(&mut out, secs as u64);
        }
        out.append(", tv_nsec: ");
        push_decimal(&mut out, self.mtime.nanos as u64);
        out.append(" }");
        assert(out@ =~= self@.description());
        out
    }
}

/// The identity of a file: its device ID and its inode number.
#[derive(Debug, Clone, Copy, PartialEq, Eq, Structural)]
pub struct FileId {
    /// The device ID.
    pub dev: u64,
    /// The inode number.
    pub ino: u64,
}

impl Key for FileId {
    type Value = FileId;

    open spec fn value(&self) -> FileId {
        *self
    }

    open spec fn before(a: FileId, b: FileId) -> bool {
        a.dev < b.dev || (a.dev == b.dev && a.ino < b.ino)
    }

    proof fn lemma_irreflexive(a: FileId) {
    }

    proof fn lemma_transitive(a: FileId, b: FileId, c: FileId) {
    }

    fn order(&self, other: &Self) -> (r: Order) {
        if self.dev < other.dev || (self.dev == other.dev && self.ino < other.ino) {
            Order::Before
        } else if self.dev == other.dev && self.ino == other.ino {
            Order::Same
        } else {
            Order::After
        }
    }

    fn duplicate(&self) -> (r: Self) {
        *self
    }
}

/// What a scan of a tree reads of the content of an entry.
#[derive(Debug, Clone, Copy, PartialEq, Eq, Structural)]
pub enum ContentToRead {
    /// Nothing.
    Nothing,
    /// The target of the symlink.
    Target,
    /// The data of the file.
    Data,
}

/// The metadata of an entry that a scan of a tree found.
#[derive(Debug)]
pub struct ScanItem {
    /// The kind and the content.
    pub kind: Kind,
    /// Whether the entry is a regular file.
    pub is_file: bool,
    /// The number of names of the file.
    pub nlink: u64,
    /// The identity of the file.
    pub file: FileId,
    /// The mode of the entry, with all its bits.
    pub mode: u32,
    /// The modification time.
    pub mtime: FileTime,
}

impl ScanItem {
    /// The entry that the item is. It keeps the permission bits of the mode.
    pub open spec fn entry(&self) -> EntryModel {
        EntryModel {
            kind: self.kind@,
            mode: if self.kind is Symlink {
                None
            } else {
                Some(self.mode & 0o7777)
            },
            mtime: self.mtime,
        }
    }

    /// Whether the scan keeps the name of the item: it is a file with more than one name.
    pub open spec fn has_names(&self) -> bool {
        self.is_file && self.nlink > 1
    }
}

/// Gives what a scan reads of the content of an entry.
pub fn content_to_read(is_dir: bool, is_symlink: bool) -> (r: ContentToRead)
    ensures
        r == if is_dir {
            ContentToRead::Nothing
        } else if is_symlink {
            ContentToRead::Target
        } else {
            ContentToRead::Data
        },
{
    if is_dir {
        ContentToRead::Nothing
    } else if is_symlink {
        ContentToRead::Target
    } else {
        ContentToRead::Data
    }
}

/// The entries of a tree, by path.
pub type Entries = Map<Seq<Seq<char>>, EntryModel>;

/// The names of each file with more than one name.
pub type Names = Map<FileId, Set<Seq<Seq<char>>>>;

/// What the entries of `map` are.
pub open spec fn entries_of(map: Map<Seq<Seq<char>>, Entry>) -> Entries {
    map.map_values(|entry: Entry| entry@)
}

/// The entries and the file identities that a scan of a tree collects.
#[derive(Debug)]
pub struct Scan {
    entries: SortedMap<TreePath, Entry>,
    names: SortedMap<FileId, SortedMap<TreePath, ()>>,
}

impl Scan {
    /// The entries, by path relative to the root.
    pub closed spec fn entries(&self) -> Entries {
        entries_of(self.entries@)
    }

    /// The paths of each regular file that has more than one name.
    pub closed spec fn names(&self) -> Names {
        self.names@.map_values(|paths: SortedMap<TreePath, ()>| paths@.dom())
    }

    /// Creates a scan without entries.
    pub fn new() -> (r: Self)
        ensures
            r.entries() == Map::<Seq<Seq<char>>, EntryModel>::empty(),
            r.names() == Map::<FileId, Set<Seq<Seq<char>>>>::empty(),
    {
        let r = Scan { entries: SortedMap::new(), names: SortedMap::new() };
        assert(r.entries() =~= Map::empty());
        assert(r.names() =~= Map::empty());
        r
    }

    /// Adds the entry `item` with the path `path`.
    ///
    /// # Returns
    ///
    /// Whether the entry is a directory, so that the caller adds the entries below it.
    pub fn add(&mut self, path: &TreePath, item: ScanItem) -> (r: bool)
        ensures
            r == (item.kind is Dir),
            final(self).entries() == old(self).entries().insert(path@, item.entry()),
            final(self).names() == if item.has_names() {
                old(self).names().insert(
                    item.file,
                    if old(self).names().contains_key(item.file) {
                        old(self).names()[item.file].insert(path@)
                    } else {
                        set![path@]
                    },
                )
            } else {
                old(self).names()
            },
    {
        let ghost model = item.entry();
        let ghost before = *self;
        if item.is_file && item.nlink > 1 {
            let mut group = match self.names.remove(&item.file) {
                Some(group) => group,
                None => SortedMap::new(),
            };
            let ghost old_group = group@.dom();
            let _ = group.insert(path.duplicate(), ());
            assert(group@.dom() =~= old_group.insert(path@));
            let ghost new_group = group;
            let _ = self.names.insert(item.file, group);
            proof {
                if before.names().contains_key(item.file) {
                    assert(old_group == before.names()[item.file]);
                } else {
                    assert(old_group.insert(path@) =~= set![path@]);
                }
                let wanted = before.names().insert(item.file, new_group@.dom());
                assert(self.names() =~= wanted);
            }
        }
        let (is_dir, is_symlink) = match &item.kind {
            Kind::Dir => (true, false),
            Kind::Symlink(_) => (false, true),
            Kind::File(_) => (false, false),
        };
        let mode = if is_symlink {
            None
        } else {
            Some(item.mode & 0o7777)
        };
        let entry = Entry { kind: item.kind, mode, mtime: item.mtime };
        assert(entry@ == model);
        let _ = self.entries.insert(path.duplicate(), entry);
        assert(self.entries() =~= before.entries().insert(path@, model));
        is_dir
    }
}

/// Whether `list` holds each path of `set` once, in order.
pub open spec fn lists_paths(list: Seq<Seq<Seq<char>>>, set: Set<Seq<Seq<char>>>) -> bool {
    &&& vstd::relations::sorted_by(list, tree_path::path_order())
    &&& forall|path: Seq<Seq<char>>| #[trigger] list.contains(path) <==> set.contains(path)
}

/// Whether `files` holds each file of `names` once, and `groups` holds the names of each of them.
pub open spec fn lists_groups(
    names: Names,
    files: Seq<FileId>,
    groups: Seq<Seq<Seq<Seq<char>>>>,
) -> bool {
    &&& files.len() == groups.len()
    &&& files.no_duplicates()
    &&& forall|file: FileId| #[trigger] names.contains_key(file) <==> files.contains(file)
    &&& forall|i: int|
        0 <= i < files.len() ==> lists_paths(#[trigger] groups[i], names[files[i]])
}

/// The order of lists of paths in which a list can occur more than once.
pub open spec fn group_order_or_same() -> spec_fn(
    Seq<Seq<Seq<char>>>,
    Seq<Seq<Seq<char>>>,
) -> bool {
    |a: Seq<Seq<Seq<char>>>, b: Seq<Seq<Seq<char>>>| a == b || tree_path::group_order()(a, b)
}

/// Whether `links` holds the names of each file of `names`, in order.
pub open spec fn are_links(names: Names, links: Seq<Seq<Seq<Seq<char>>>>) -> bool {
    &&& vstd::relations::sorted_by(links, group_order_or_same())
    &&& exists|files: Seq<FileId>, groups: Seq<Seq<Seq<Seq<char>>>>| #[trigger]
        lists_groups(names, files, groups) && links.to_multiset() == groups.to_multiset()
}

/// The paths of the groups `links`.
pub open spec fn groups_of(links: Seq<Vec<TreePath>>) -> Seq<Seq<Seq<Seq<char>>>> {
    links.map_values(|group: Vec<TreePath>| tree_path::paths_of(group@))
}

/// Gives the paths of `set`, in order.
fn list_paths(set: &SortedMap<TreePath, ()>) -> (r: Vec<TreePath>)
    ensures
        lists_paths(tree_path::paths_of(r@), set@.dom()),
{
    set.reveal_order();
    let mut list: Vec<TreePath> = Vec::new();
    let n: usize = set.len();
    for i in 0..n
        invariant
            n == set.sequence().len(),
            list.len() == i,
            forall|j: int| 0 <= j < i ==> (#[trigger] list@[j])@ == set.sequence()[j].0@,
    {
        let (path, _) = set.entry(i);
        list.push(path.duplicate());
    }
    proof {
        let entries = set.sequence();
        let paths = tree_path::paths_of(list@);
        assert forall|i: int, j: int| 0 <= i < j < paths.len() implies #[trigger]
            tree_path::path_order()(paths[i], paths[j]) by {
            assert(list@[i]@ == entries[i].0@ && list@[j]@ == entries[j].0@);
            assert(TreePath::before(entries[i].0.value(), entries[j].0.value()));
        }
        assert forall|path: Seq<Seq<char>>| #[trigger] paths.contains(path)
            <==> set@.dom().contains(path) by {
            if paths.contains(path) {
                let i = choose|i: int| 0 <= i < paths.len() && paths[i] == path;
                assert(list@[i]@ == entries[i].0@);
                assert(set@.contains_key(entries[i].0.value()));
            }
            if set@.dom().contains(path) {
                let i = choose|i: int| sorted::key_at(entries, path, i);
                assert(sorted::key_at(entries, path, i));
                assert(list@[i]@ == entries[i].0@);
                assert(paths[i] == path);
            }
        }
    }
    list
}

/// Inserts `group` into the sorted list `links`.
fn insert_group(links: &mut Vec<Vec<TreePath>>, group: Vec<TreePath>)
    requires
        vstd::relations::sorted_by(groups_of(old(links)@), group_order_or_same()),
    ensures
        vstd::relations::sorted_by(groups_of(final(links)@), group_order_or_same()),
        groups_of(final(links)@).to_multiset() == groups_of(old(links)@).to_multiset().insert(
            tree_path::paths_of(group@),
        ),
{
    let ghost new_paths = tree_path::paths_of(group@);
    let ghost before = groups_of(links@);
    let ghost leq = group_order_or_same();
    let mut at: usize = links.len();
    proof {
        tree_path::lemma_orders();
    }
    while at > 0
        invariant_except_break
            at <= links.len(),
            before == groups_of(links@),
            links@ == old(links)@,
            leq == group_order_or_same(),
            new_paths == tree_path::paths_of(group@),
            vstd::relations::sorted_by(before, leq),
            tree_path::strict_total(tree_path::group_order()),
            forall|i: int| at <= i < before.len() ==> leq(new_paths, #[trigger] before[i]),
        ensures
            at <= links.len(),
            links@ == old(links)@,
            forall|i: int| at <= i < before.len() ==> leq(new_paths, #[trigger] before[i]),
            forall|i: int| 0 <= i < at ==> leq(#[trigger] before[i], new_paths),
        decreases at,
    {
        let last: usize = at - 1;
        match order_groups(&links[last], &group) {
            Order::Before | Order::Same => {
                proof {
                    assert(before[last as int] == tree_path::paths_of(links@[last as int]@));
                    assert(leq(before[last as int], new_paths));
                    assert forall|i: int| 0 <= i < at implies leq(
                        #[trigger] before[i],
                        new_paths,
                    ) by {
                        if i < last {
                            assert(leq(before[i], before[last as int]));
                        }
                    }
                }
                break;
            },
            Order::After => {
                assert(before[last as int] == tree_path::paths_of(links@[last as int]@));
            },
        }
        at = last;
    }
    links.insert(at, group);
    proof {
        let after = groups_of(links@);
        assert(after =~= before.insert(at as int, new_paths));
        assert forall|i: int, j: int| 0 <= i < j < after.len() implies #[trigger] leq(
            after[i],
            after[j],
        ) by {
            let i0 = if i < at {
                i
            } else {
                i - 1
            };
            let j0 = if j < at {
                j
            } else {
                j - 1
            };
            if i == at {
                assert(leq(new_paths, before[j0]));
            } else if j == at {
                assert(leq(before[i0], new_paths));
            } else {
                assert(leq(before[i0], before[j0]));
            }
        }
        vstd::seq_lib::to_multiset_insert(before, at as int, new_paths);
    }
}

/// The entries of a tree below its root, and its hard links.
#[derive(Debug)]
pub struct Model {
    entries: SortedMap<TreePath, Entry>,
    links: Vec<Vec<TreePath>>,
}

/// What a [`Model`] is.
#[verifier::ext_equal]
pub ghost struct TreeState {
    /// The entries, by path relative to the root.
    pub entries: Entries,
    /// The groups of paths that are names of one file, for each file that has more than one name.
    /// Each group and the list of groups are sorted.
    pub links: Seq<Seq<Seq<Seq<char>>>>,
}

impl View for Model {
    type V = TreeState;

    closed spec fn view(&self) -> TreeState {
        TreeState { entries: entries_of(self.entries@), links: groups_of(self.links@) }
    }
}

impl Scan {
    /// Gives the model of the scanned tree.
    pub fn into_model(self) -> (r: Model)
        ensures
            r@.entries == self.entries(),
            are_links(self.names(), r@.links),
    {
        let ghost names = self.names();
        self.names.reveal_order();
        let mut links: Vec<Vec<TreePath>> = Vec::new();
        let ghost mut files: Seq<FileId> = Seq::empty();
        let ghost mut groups: Seq<Seq<Seq<Seq<char>>>> = Seq::empty();
        let n: usize = self.names.len();
        proof {
            assert(groups_of(links@) =~= groups);
        }
        for i in 0..n
            invariant
                n == self.names.sequence().len(),
                sorted::ascending(self.names.sequence()),
                names == self.names(),
                forall|j: int|
                    0 <= j < n ==> self.names@.contains_key(
                        (#[trigger] self.names.sequence()[j]).0,
                    ) && self.names@[self.names.sequence()[j].0] == self.names.sequence()[j].1,
                vstd::relations::sorted_by(groups_of(links@), group_order_or_same()),
                groups_of(links@).to_multiset() == groups.to_multiset(),
                files.len() == i,
                groups.len() == i,
                forall|j: int| 0 <= j < i ==> #[trigger] files[j] == self.names.sequence()[j].0,
                forall|j: int|
                    0 <= j < i ==> lists_paths(#[trigger] groups[j], names[files[j]]),
        {
            let (file, set) = self.names.entry(i);
            let group = list_paths(set);
            proof {
                assert(self.names@.contains_key(self.names.sequence()[i as int].0));
                let paths = tree_path::paths_of(group@);
                assert(names[*file] == set@.dom());
                vstd::seq_lib::to_multiset_build(groups, paths);
                files = files.push(*file);
                groups = groups.push(paths);
            }
            insert_group(&mut links, group);
        }
        proof {
            let sequence = self.names.sequence();
            assert(files.no_duplicates()) by {
                assert forall|i: int, j: int|
                    0 <= i < files.len() && 0 <= j < files.len() && i != j implies files[i]
                    != files[j] by {
                    if i < j {
                        assert(FileId::before(sequence[i].0.value(), sequence[j].0.value()));
                    } else {
                        assert(FileId::before(sequence[j].0.value(), sequence[i].0.value()));
                    }
                }
            }
            assert forall|file: FileId| #[trigger] names.contains_key(file) <==> files.contains(
                file,
            ) by {
                if names.contains_key(file) {
                    let i = choose|i: int| sorted::key_at(sequence, file, i);
                    assert(sorted::key_at(sequence, file, i));
                    assert(files[i] == file);
                }
                if files.contains(file) {
                    let i = choose|i: int| 0 <= i < files.len() && files[i] == file;
                    assert(self.names@.contains_key(sequence[i].0));
                }
            }
            assert(lists_groups(names, files, groups));
        }
        Model { entries: self.entries, links }
    }
}

/// The text that the `Debug` of a [`std::path::Path`] gives for the path `path`.
pub uninterp spec fn path_debug(path: Seq<char>) -> Seq<char>;

/// Calls the `Debug` of [`std::path::Path`], which gives the path in quotes, with escapes for some
/// characters.
#[verifier::external_body]
fn debug_path(path: &str) -> (r: String)
    ensures
        r@ == path_debug(path@),
{
    format!("{:?}", std::path::Path::new(path))
}

/// The texts of the paths `paths`.
pub open spec fn path_texts(paths: Seq<Seq<Seq<char>>>) -> Seq<Seq<char>> {
    paths.map_values(|path: Seq<Seq<char>>| path_debug(TreePath::path_text(path)))
}

/// The texts of the groups `groups`.
pub open spec fn group_texts(groups: Seq<Seq<Seq<Seq<char>>>>) -> Seq<Seq<char>> {
    groups.map_values(|group: Seq<Seq<Seq<char>>>| text::list_text(path_texts(group)))
}

/// Gives the texts of the paths `paths`.
fn texts_of_paths(paths: &Vec<TreePath>) -> (r: Vec<String>)
    ensures
        text::texts(r@) == path_texts(tree_path::paths_of(paths@)),
{
    let mut out: Vec<String> = Vec::new();
    let n: usize = paths.len();
    for i in 0..n
        invariant
            n == paths.len(),
            out.len() == i,
            forall|j: int|
                0 <= j < i ==> (#[trigger] out@[j])@ == path_debug(
                    TreePath::path_text(paths@[j]@),
                ),
    {
        out.push(debug_path(paths[i].display().as_str()));
    }
    assert(text::texts(out@) =~= path_texts(tree_path::paths_of(paths@)));
    out
}

/// Gives the texts of the groups `groups`.
fn texts_of_groups(groups: &Vec<Vec<TreePath>>) -> (r: Vec<String>)
    ensures
        text::texts(r@) == group_texts(groups_of(groups@)),
{
    let mut out: Vec<String> = Vec::new();
    let n: usize = groups.len();
    for i in 0..n
        invariant
            n == groups.len(),
            out.len() == i,
            forall|j: int|
                0 <= j < i ==> (#[trigger] out@[j])@ == text::list_text(
                    path_texts(tree_path::paths_of(groups@[j]@)),
                ),
    {
        out.push(text::list(&texts_of_paths(&groups[i])));
    }
    assert(text::texts(out@) =~= group_texts(groups_of(groups@)));
    out
}

/// The message for a restored tree with other paths.
pub open spec fn paths_message(missing: Seq<Seq<char>>, extra: Seq<Seq<char>>) -> Seq<char> {
    "The restored tree has other paths. Missing: "@ + text::list_text(missing) + ". Extra: "@
        + text::list_text(extra) + "."@
}

/// Gives the message for a restored tree with other paths.
///
/// # Arguments
///
/// * `missing` - The texts of the saved paths that the restored tree does not have
/// * `extra` - The texts of the paths that only the restored tree has
pub fn describe_paths(missing: &Vec<String>, extra: &Vec<String>) -> (r: String)
    ensures
        r@ == paths_message(text::texts(missing@), text::texts(extra@)),
{
    let mut out = owned("The restored tree has other paths. Missing: ");
    out.append(text::list(missing).as_str());
    out.append(". Extra: ");
    out.append(text::list(extra).as_str());
    out.append(".");
    assert(out@ =~= paths_message(text::texts(missing@), text::texts(extra@)));
    out
}

/// The message for a restored entry that differs.
pub open spec fn entry_message(
    path: Seq<Seq<char>>,
    saved: EntryModel,
    restored: EntryModel,
) -> Seq<char> {
    "The restored entry `"@ + TreePath::path_text(path) + "` differs. Saved: "@
        + saved.description() + ". Restored: "@ + restored.description() + "."@
}

/// Gives the message for a restored entry that differs.
fn describe_entry(path: &TreePath, saved: &Entry, restored: &Entry) -> (r: String)
    ensures
        r@ == entry_message(path@, saved@, restored@),
{
    let mut out = owned("The restored entry `");
    out.append(path.display().as_str());
    out.append("` differs. Saved: ");
    out.append(saved.describe().as_str());
    out.append(". Restored: ");
    out.append(restored.describe().as_str());
    out.append(".");
    assert(out@ =~= entry_message(path@, saved@, restored@));
    out
}

/// The message for a restored tree with other hard links.
pub open spec fn links_message(saved: Seq<Seq<char>>, restored: Seq<Seq<char>>) -> Seq<char> {
    "The paths and entries of the restored tree are equal to the saved tree, but the hard links differ. Saved groups of names of one file: "@
        + text::list_text(saved) + ". Restored groups: "@ + text::list_text(restored) + "."@
}

/// Gives the message for a restored tree with other hard links.
///
/// # Arguments
///
/// * `saved` - The texts of the groups of the saved tree
/// * `restored` - The texts of the groups of the restored tree
pub fn describe_links(saved: &Vec<String>, restored: &Vec<String>) -> (r: String)
    ensures
        r@ == links_message(text::texts(saved@), text::texts(restored@)),
{
    let mut out = owned(
        "The paths and entries of the restored tree are equal to the saved tree, but the hard links differ. Saved groups of names of one file: ",
    );
    out.append(text::list(saved).as_str());
    out.append(". Restored groups: ");
    out.append(text::list(restored).as_str());
    out.append(".");
    assert(out@ =~= links_message(text::texts(saved@), text::texts(restored@)));
    out
}

/// Whether `path` is the first path of `a` whose entry differs in `b`.
pub open spec fn first_differs(a: Entries, b: Entries, path: Seq<Seq<char>>) -> bool {
    &&& a.contains_key(path)
    &&& a[path] != b[path]
    &&& forall|other: Seq<Seq<char>>| #[trigger]
        a.contains_key(other) && tree_path::path_order()(other, path) ==> a[other] == b[other]
}

/// Whether `message` tells the first difference of the tree `restored` to the tree `saved`: first of
/// the paths, then of the entries, then of the hard links.
pub open spec fn tells_difference(
    saved: TreeState,
    restored: TreeState,
    message: Seq<char>,
) -> bool {
    let (a, b) = (saved.entries, restored.entries);
    if a.dom() != b.dom() {
        exists|missing: Seq<Seq<Seq<char>>>, extra: Seq<Seq<Seq<char>>>|
            {
                &&& #[trigger] lists_paths(missing, a.dom().difference(b.dom()))
                &&& #[trigger] lists_paths(extra, b.dom().difference(a.dom()))
                &&& message == paths_message(path_texts(missing), path_texts(extra))
            }
    } else if a != b {
        exists|path: Seq<Seq<char>>| #[trigger]
            first_differs(a, b, path) && message == entry_message(path, a[path], b[path])
    } else {
        message == links_message(group_texts(saved.links), group_texts(restored.links))
    }
}

/// Gives the paths of `a` that `b` does not have, in order.
fn paths_without(a: &SortedMap<TreePath, Entry>, b: &SortedMap<TreePath, Entry>) -> (r: Vec<
    TreePath,
>)
    ensures
        lists_paths(
            tree_path::paths_of(r@),
            entries_of(a@).dom().difference(entries_of(b@).dom()),
        ),
{
    a.reveal_order();
    let mut rest: SortedMap<TreePath, ()> = SortedMap::new();
    let n: usize = a.len();
    for i in 0..n
        invariant
            n == a.sequence().len(),
            forall|j: int|
                0 <= j < n ==> a@.contains_key((#[trigger] a.sequence()[j]).0.value()),
            forall|path: Seq<Seq<char>>| #[trigger]
                rest@.contains_key(path) ==> a@.contains_key(path) && !b@.contains_key(path),
            forall|j: int|
                0 <= j < i && !b@.contains_key((#[trigger] a.sequence()[j]).0.value())
                    ==> rest@.contains_key(a.sequence()[j].0.value()),
    {
        let (path, _) = a.entry(i);
        if !b.contains_key(path) {
            let _ = rest.insert(path.duplicate(), ());
        }
    }
    proof {
        assert forall|path: Seq<Seq<char>>|
            a@.contains_key(path) && !b@.contains_key(path) implies #[trigger] rest@.contains_key(
            path,
        ) by {
            let i = choose|i: int| sorted::key_at(a.sequence(), path, i);
            assert(sorted::key_at(a.sequence(), path, i));
        }
        assert(rest@.dom() =~= entries_of(a@).dom().difference(entries_of(b@).dom()));
    }
    list_paths(&rest)
}

impl Model {
    /// Checks that the tree `found` equals this model.
    ///
    /// The function checks the paths first, then each entry, and then the hard links.
    ///
    /// # Errors
    ///
    /// * If the tree has other paths, or an entry that differs.
    /// * If the tree has other groups of names of one file.
    pub fn check(&self, found: &Model) -> (r: Result<(), String>)
        ensures
            match r {
                Ok(_) => self@ == found@,
                Err(message) => self@ != found@ && tells_difference(self@, found@, message@),
            },
    {
        let ghost a = self@.entries;
        let ghost b = found@.entries;
        let missing = paths_without(&self.entries, &found.entries);
        let extra = paths_without(&found.entries, &self.entries);
        if missing.len() > 0 || extra.len() > 0 {
            proof {
                let missing_paths = tree_path::paths_of(missing@);
                let extra_paths = tree_path::paths_of(extra@);
                if missing.len() > 0 {
                    assert(missing_paths.contains(missing_paths[0]));
                } else {
                    assert(extra_paths.contains(extra_paths[0]));
                }
                assert(a.dom() != b.dom());
                assert(lists_paths(missing_paths, a.dom().difference(b.dom())));
                assert(lists_paths(extra_paths, b.dom().difference(a.dom())));
            }
            return Err(describe_paths(&texts_of_paths(&missing), &texts_of_paths(&extra)));
        }
        proof {
            assert forall|path: Seq<Seq<char>>| a.dom().contains(path) <==> b.dom().contains(
                path,
            ) by {
                assert(!tree_path::paths_of(missing@).contains(path));
                assert(!tree_path::paths_of(extra@).contains(path));
            }
            assert(a.dom() =~= b.dom());
        }
        self.entries.reveal_order();
        let n: usize = self.entries.len();
        for i in 0..n
            invariant
                n == self.entries.sequence().len(),
                a == self@.entries,
                b == found@.entries,
                a.dom() == b.dom(),
                sorted::ascending(self.entries.sequence()),
                self.entries@ == sorted::listed(self.entries.sequence()),
                forall|j: int|
                    0 <= j < n ==> self.entries@.contains_key(
                        (#[trigger] self.entries.sequence()[j]).0.value(),
                    ) && self.entries@[self.entries.sequence()[j].0.value()]
                        == self.entries.sequence()[j].1,
                forall|j: int|
                    0 <= j < i ==> a[(#[trigger] self.entries.sequence()[j]).0@]
                        == b[self.entries.sequence()[j].0@],
        {
            let (path, entry) = self.entries.entry(i);
            assert(self.entries@.contains_key(self.entries.sequence()[i as int].0.value()));
            assert(a.dom().contains(path@));
            assert(a[path@] == entry@);
            match found.entries.get(path) {
                Some(other) => {
                    assert(b[path@] == other@);
                    if !entry.same(other) {
                        proof {
                            assert forall|p: Seq<Seq<char>>| #[trigger]
                                a.contains_key(p) && tree_path::path_order()(
                                    p,
                                    path@,
                                ) implies a[p] == b[p] by {
                                let sequence = self.entries.sequence();
                                let k = choose|k: int| sorted::key_at(sequence, p, k);
                                assert(sorted::key_at(sequence, p, k));
                                if k > i {
                                    assert(TreePath::before(
                                        sequence[i as int].0.value(),
                                        sequence[k].0.value(),
                                    ));
                                    TreePath::lemma_transitive(p, path@, p);
                                    TreePath::lemma_irreflexive(p);
                                } else if k == i {
                                    TreePath::lemma_irreflexive(p);
                                }
                            }
                            assert(first_differs(a, b, path@));
                        }
                        return Err(describe_entry(path, entry, other));
                    }
                },
                None => {
                    assert(b.dom().contains(path@));
                },
            }
        }
        proof {
            assert forall|path: Seq<Seq<char>>| a.contains_key(path) implies a[path] == b[path] by {
                let sequence = self.entries.sequence();
                let k = choose|k: int| sorted::key_at(sequence, path, k);
                assert(sorted::key_at(sequence, path, k));
            }
            assert(a =~= b);
        }
        if same_groups(&self.links, &found.links) {
            assert(self@ =~= found@);
            Ok(())
        } else {
            Err(describe_links(&texts_of_groups(&self.links), &texts_of_groups(&found.links)))
        }
    }
}

/// Tells if `a` and `b` hold the same groups in the same order.
fn same_groups(a: &Vec<Vec<TreePath>>, b: &Vec<Vec<TreePath>>) -> (r: bool)
    ensures
        r == (groups_of(a@) == groups_of(b@)),
{
    if a.len() != b.len() {
        assert(groups_of(a@).len() != groups_of(b@).len());
        return false;
    }
    proof {
        tree_path::lemma_orders();
    }
    let n: usize = a.len();
    for i in 0..n
        invariant
            n == a.len(),
            n == b.len(),
            tree_path::strict_total(tree_path::group_order()),
            forall|j: int| 0 <= j < i ==> #[trigger] groups_of(a@)[j] == groups_of(b@)[j],
    {
        match order_groups(&a[i], &b[i]) {
            Order::Same => {},
            Order::Before | Order::After => {
                assert(groups_of(a@)[i as int] != groups_of(b@)[i as int]);
                return false;
            },
        }
    }
    assert(groups_of(a@) =~= groups_of(b@));
    true
}

/// The hard links of a model depend only on the groups of names, not on the identities of the
/// files: if the files of two trees have the same groups of names, then their models have the same
/// hard links.
pub proof fn law_links_depend_on_groups(
    a_names: Names,
    a_files: Seq<FileId>,
    b_names: Names,
    b_files: Seq<FileId>,
    groups: Seq<Seq<Seq<Seq<char>>>>,
    a: Seq<Seq<Seq<Seq<char>>>>,
    b: Seq<Seq<Seq<Seq<char>>>>,
)
    requires
        lists_groups(a_names, a_files, groups),
        lists_groups(b_names, b_files, groups),
        are_links(a_names, a),
        are_links(b_names, b),
    ensures
        a == b,
{
    lemma_links_unique(a_names, a_files, groups, a);
    lemma_links_unique(b_names, b_files, groups, b);
    tree_path::lemma_orders();
    let leq = group_order_or_same();
    let less = tree_path::group_order();
    assert forall|x: Seq<Seq<Seq<char>>>, y: Seq<Seq<Seq<char>>>| #[trigger]
        leq(x, y) && #[trigger] leq(y, x) implies x == y by {
        if x != y {
            assert(less(x, y) && less(y, x));
            assert(less(x, x));
        }
    }
    assert forall|x: Seq<Seq<Seq<char>>>, y: Seq<Seq<Seq<char>>>, z: Seq<Seq<Seq<char>>>| #[trigger]
        leq(x, y) && #[trigger] leq(y, z) implies leq(x, z) by {
        if x != y && y != z {
            assert(less(x, y) && less(y, z));
        }
    }
    assert forall|x: Seq<Seq<Seq<char>>>, y: Seq<Seq<Seq<char>>>| #[trigger] leq(x, y) || leq(y, x) by {
        assert(less(x, y) || x == y || less(y, x));
    }
    assert(vstd::relations::total_ordering(leq));
    vstd::seq_lib::lemma_sorted_unique(a, b, leq);
}

/// Two lists of the same paths in order are equal.
proof fn lemma_lists_unique(
    a: Seq<Seq<Seq<char>>>,
    b: Seq<Seq<Seq<char>>>,
    set: Set<Seq<Seq<char>>>,
)
    requires
        lists_paths(a, set),
        lists_paths(b, set),
    ensures
        a == b,
{
    tree_path::lemma_orders();
    lemma_prefix_unique(a, b, set, 0);
}

proof fn lemma_prefix_unique(
    a: Seq<Seq<Seq<char>>>,
    b: Seq<Seq<Seq<char>>>,
    set: Set<Seq<Seq<char>>>,
    n: int,
)
    requires
        tree_path::strict_total(tree_path::path_order()),
        lists_paths(a, set),
        lists_paths(b, set),
        0 <= n <= a.len(),
        n <= b.len(),
        forall|i: int| 0 <= i < n ==> #[trigger] a[i] == b[i],
    ensures
        a == b,
    decreases a.len() - n,
{
    let less = tree_path::path_order();
    if n == a.len() {
        if n < b.len() {
            assert(b.contains(b[n]));
            assert(a.contains(b[n]));
            let i = choose|i: int| 0 <= i < a.len() && a[i] == b[n];
            assert(less(b[i], b[n]));
            assert(a[i] == b[i]);
            assert(false);
        }
        assert(a =~= b);
    } else if n == b.len() {
        assert(a.contains(a[n]));
        assert(b.contains(a[n]));
        let i = choose|i: int| 0 <= i < b.len() && b[i] == a[n];
        assert(less(a[i], a[n]));
        assert(a[i] == b[i]);
        assert(false);
    } else {
        if a[n] != b[n] {
            assert(a.contains(a[n]) && b.contains(b[n]));
            assert(b.contains(a[n]) && a.contains(b[n]));
            let i = choose|i: int| 0 <= i < b.len() && b[i] == a[n];
            let j = choose|j: int| 0 <= j < a.len() && a[j] == b[n];
            if i < n {
                assert(a[i] == b[i]);
                assert(less(a[i], a[n]));
            }
            if j < n {
                assert(a[j] == b[j]);
                assert(less(b[j], b[n]));
            }
            assert(less(b[n], b[i]));
            assert(less(a[n], a[j]));
            assert(less(a[n], b[n]) && less(b[n], a[n]));
            assert(less(a[n], a[n]));
            assert(false);
        }
        lemma_prefix_unique(a, b, set, n + 1);
    }
}

/// Lists of the groups of the same names hold the same groups.
proof fn lemma_links_unique(
    names: Names,
    files: Seq<FileId>,
    groups: Seq<Seq<Seq<Seq<char>>>>,
    links: Seq<Seq<Seq<Seq<char>>>>,
)
    requires
        lists_groups(names, files, groups),
        are_links(names, links),
    ensures
        links.to_multiset() == groups.to_multiset(),
{
    let (others, other_groups) = choose|fs: Seq<FileId>, gs: Seq<Seq<Seq<Seq<char>>>>| #[trigger]
        lists_groups(names, fs, gs) && links.to_multiset() == gs.to_multiset();
    lemma_groups_same(names, files, groups, others, other_groups);
}

proof fn lemma_groups_same(
    names: Names,
    a_files: Seq<FileId>,
    a: Seq<Seq<Seq<Seq<char>>>>,
    b_files: Seq<FileId>,
    b: Seq<Seq<Seq<Seq<char>>>>,
)
    requires
        lists_groups(names, a_files, a),
        lists_groups(names, b_files, b),
    ensures
        a.to_multiset() == b.to_multiset(),
    decreases a.len(),
{
    broadcast use vstd::seq_lib::group_to_multiset_ensures;

    if a.len() == 0 {
        if b.len() > 0 {
            assert(b_files.contains(b_files[0]));
            assert(names.contains_key(b_files[0]));
            assert(a_files.contains(b_files[0]));
        }
        assert(a =~= b);
    } else {
        let last = a.len() - 1;
        let file = a_files[last];
        assert(a_files.contains(file));
        assert(names.contains_key(file));
        assert(b_files.contains(file));
        let k = choose|k: int| 0 <= k < b_files.len() && b_files[k] == file;
        assert(lists_paths(a[last], names[file]));
        assert(lists_paths(b[k], names[file]));
        lemma_lists_unique(a[last], b[k], names[file]);
        let fewer = names.remove(file);
        lemma_without(names, a_files, a, last);
        lemma_without(names, b_files, b, k);
        lemma_groups_same(fewer, a_files.remove(last), a.remove(last), b_files.remove(k), b.remove(k));
        vstd::seq_lib::to_multiset_insert(a.remove(last), last, a[last]);
        vstd::seq_lib::to_multiset_insert(b.remove(k), k, b[k]);
        assert(a.remove(last).insert(last, a[last]) =~= a);
        assert(b.remove(k).insert(k, b[k]) =~= b);
    }
}

proof fn lemma_without(
    names: Names,
    files: Seq<FileId>,
    groups: Seq<Seq<Seq<Seq<char>>>>,
    k: int,
)
    requires
        lists_groups(names, files, groups),
        0 <= k < files.len(),
    ensures
        lists_groups(names.remove(files[k]), files.remove(k), groups.remove(k)),
{
    let fewer = files.remove(k);
    let file = files[k];
    assert forall|i: int, j: int|
        0 <= i < fewer.len() && 0 <= j < fewer.len() && i != j implies fewer[i] != fewer[j] by {
        let i0 = if i < k {
            i
        } else {
            i + 1
        };
        let j0 = if j < k {
            j
        } else {
            j + 1
        };
        assert(files[i0] != files[j0]);
    }
    assert forall|f: FileId| #[trigger] names.remove(file).contains_key(f) <==> fewer.contains(f) by {
        if names.remove(file).contains_key(f) {
            assert(files.contains(f));
            let i = choose|i: int| 0 <= i < files.len() && files[i] == f;
            if i < k {
                assert(fewer[i] == f);
            } else {
                assert(fewer[i - 1] == f);
            }
        }
        if fewer.contains(f) {
            let i = choose|i: int| 0 <= i < fewer.len() && fewer[i] == f;
            let i0 = if i < k {
                i
            } else {
                i + 1
            };
            assert(files[i0] == f);
            assert(files.contains(f));
            assert(files[i0] != files[k]);
        }
    }
    assert forall|i: int| 0 <= i < fewer.len() implies lists_paths(
        #[trigger] groups.remove(k)[i],
        names.remove(file)[fewer[i]],
    ) by {
        let i0 = if i < k {
            i
        } else {
            i + 1
        };
        assert(lists_paths(groups[i0], names[files[i0]]));
        assert(files[i0] != files[k]);
    }
}

/// Two entries are the same exactly if they are of the same kind and agree in the data or in the
/// target, in the permission bits, and in the seconds and the nanoseconds of the modification time.
pub proof fn law_same_entries_agree_in_each_field(a: Entry, b: Entry, r: bool)
    requires
        call_ensures(Entry::same, (&a, &b), r),
    ensures
        r <==> {
            &&& match (a.kind, b.kind) {
                (Kind::Dir, Kind::Dir) => true,
                (Kind::File(x), Kind::File(y)) => x@ == y@,
                (Kind::Symlink(x), Kind::Symlink(y)) => x@ == y@,
                _ => false,
            }
            &&& a.mode == b.mode
            &&& a.mtime.secs == b.mtime.secs
            &&& a.mtime.nanos == b.mtime.nanos
        },
{
}

/// A scan keeps what it finds: the kind with the content, the modification time, and for an entry
/// that is no symlink each of the 12 permission bits and no other bit of the mode. It forgets and
/// changes no other entry.
pub proof fn law_scan_keeps_the_entry(
    scan: &mut Scan,
    path: TreePath,
    item: ScanItem,
    r: bool,
    bit: u32,
    other: Seq<Seq<char>>,
)
    requires
        call_ensures(Scan::add, (scan, &path, item), r),
        bit < 12,
    ensures
        final(scan).entries().contains_key(path@),
        final(scan).entries()[path@].kind == match item.kind {
            Kind::Dir => KindModel::Dir,
            Kind::File(data) => KindModel::File(data@),
            Kind::Symlink(target) => KindModel::Symlink(target@),
        },
        final(scan).entries()[path@].mtime == item.mtime,
        item.kind is Symlink ==> final(scan).entries()[path@].mode is None,
        !(item.kind is Symlink) ==> {
            let mode = final(scan).entries()[path@].mode;
            &&& mode is Some
            &&& (mode->0 >> bit) & 1 == (item.mode >> bit) & 1
            &&& mode->0 < 4096
        },
        other != path@ ==> {
            &&& final(scan).entries().contains_key(other) == old(scan).entries().contains_key(other)
            &&& old(scan).entries().contains_key(other) ==> final(scan).entries()[other] == old(
                scan,
            ).entries()[other]
        },
{
    lemma_permission_bits(item.mode, bit);
}

proof fn lemma_permission_bits(mode: u32, bit: u32)
    requires
        bit < 12,
    ensures
        ((mode & 0o7777) >> bit) & 1 == (mode >> bit) & 1,
        mode & 0o7777 < 4096,
{
    assert(((mode & 0o7777) >> bit) & 1 == (mode >> bit) & 1) by (bit_vector)
        requires
            bit < 12,
    ;
    assert(mode & 0o7777 < 4096) by (bit_vector);
}

/// A check compares what the scans found last for a path. It gives an error if the two entries are
/// of different kinds, or have different data, targets or modification times. It gives an error if
/// neither is a symlink and they differ in one of the 12 permission bits.
pub proof fn law_check_sees_each_difference(
    saved: &mut Scan,
    restored: &mut Scan,
    path: TreePath,
    x: ScanItem,
    y: ScanItem,
    is_dir: (bool, bool),
    models: (Model, Model),
    r: Result<(), String>,
    bit: u32,
)
    requires
        call_ensures(Scan::add, (saved, &path, x), is_dir.0),
        call_ensures(Scan::add, (restored, &path, y), is_dir.1),
        call_ensures(Scan::into_model, (*final(saved),), models.0),
        call_ensures(Scan::into_model, (*final(restored),), models.1),
        call_ensures(Model::check, (&models.0, &models.1), r),
        bit < 12,
        ({
            ||| x.mtime != y.mtime
            ||| match (x.kind, y.kind) {
                (Kind::Dir, Kind::Dir) => (x.mode >> bit) & 1 != (y.mode >> bit) & 1,
                (Kind::File(a), Kind::File(b)) => a@ != b@ || (x.mode >> bit) & 1 != (y.mode >> bit)
                    & 1,
                (Kind::Symlink(a), Kind::Symlink(b)) => a@ != b@,
                _ => true,
            }
        }),
    ensures
        r is Err,
{
    lemma_permission_bits(x.mode, bit);
    lemma_permission_bits(y.mode, bit);
    let (a, b) = (models.0@.entries, models.1@.entries);
    assert(a[path@] == x.entry());
    assert(b[path@] == y.entry());
    assert(x.entry() != y.entry());
}

/// A check gives an error if one of the scans found an entry at a path, and the other did not.
pub proof fn law_check_sees_each_path(
    saved: Scan,
    restored: Scan,
    path: Seq<Seq<char>>,
    models: (Model, Model),
    r: Result<(), String>,
)
    requires
        call_ensures(Scan::into_model, (saved,), models.0),
        call_ensures(Scan::into_model, (restored,), models.1),
        call_ensures(Model::check, (&models.0, &models.1), r),
        saved.entries().contains_key(path) != restored.entries().contains_key(path),
    ensures
        r is Err,
{
}

/// A file with more than one name gets the path as one of its names, and keeps its other names. The
/// scan keeps no name of another entry, and changes the names of no other file.
pub proof fn law_scan_keeps_the_names(
    scan: &mut Scan,
    path: TreePath,
    item: ScanItem,
    r: bool,
    other: FileId,
    name: Seq<Seq<char>>,
)
    requires
        call_ensures(Scan::add, (scan, &path, item), r),
    ensures
        r <==> item.kind is Dir,
        !item.is_file || item.nlink <= 1 ==> final(scan).names() == old(scan).names(),
        item.is_file && item.nlink >= 2 ==> {
            &&& final(scan).names().contains_key(item.file)
            &&& final(scan).names()[item.file].contains(name) <==> name == path@ || (old(
                scan,
            ).names().contains_key(item.file) && old(scan).names()[item.file].contains(name))
            &&& other != item.file ==> {
                &&& final(scan).names().contains_key(other) == old(scan).names().contains_key(other)
                &&& old(scan).names().contains_key(other) ==> final(scan).names()[other] == old(
                    scan,
                ).names()[other]
            }
        },
{
}

/// The model of a scanned tree has a group for each file with more than one name, and this group
/// holds exactly the names of the file. It has no other groups.
pub proof fn law_model_groups_the_names(scan: Scan, model: Model)
    requires
        call_ensures(Scan::into_model, (scan,), model),
    ensures
        model@.entries == scan.entries(),
        forall|file: FileId| #[trigger]
            scan.names().contains_key(file) ==> exists|k: int|
                0 <= k < model@.links.len() && (#[trigger] model@.links[k]).to_set()
                    == scan.names()[file],
        forall|k: int|
            0 <= k < model@.links.len() ==> scan.names().contains_value(
                (#[trigger] model@.links[k]).to_set(),
            ),
{
    let names = scan.names();
    let links = model@.links;
    let (files, groups) = choose|fs: Seq<FileId>, gs: Seq<Seq<Seq<Seq<char>>>>| #[trigger]
        lists_groups(names, fs, gs) && links.to_multiset() == gs.to_multiset();
    broadcast use vstd::seq_lib::group_to_multiset_ensures;

    assert forall|i: int| 0 <= i < groups.len() implies (#[trigger] groups[i]).to_set()
        == names[files[i]] by {
        assert(lists_paths(groups[i], names[files[i]]));
        assert(groups[i].to_set() =~= names[files[i]]);
    }
    assert forall|file: FileId| #[trigger] names.contains_key(file) implies exists|k: int|
        0 <= k < links.len() && (#[trigger] links[k]).to_set() == names[file] by {
        assert(files.contains(file));
        let i = choose|i: int| 0 <= i < files.len() && files[i] == file;
        assert(groups.contains(groups[i]));
        assert(groups.to_multiset().count(groups[i]) > 0);
        assert(links.contains(groups[i]));
        let k = choose|k: int| 0 <= k < links.len() && links[k] == groups[i];
        assert(links[k].to_set() == names[file]);
    }
    assert forall|k: int| 0 <= k < links.len() implies names.contains_value(
        (#[trigger] links[k]).to_set(),
    ) by {
        assert(links.contains(links[k]));
        assert(links.to_multiset().count(links[k]) > 0);
        assert(groups.contains(links[k]));
        let i = choose|i: int| 0 <= i < groups.len() && groups[i] == links[k];
        assert(files.contains(files[i]));
        assert(names.contains_key(files[i]) && names[files[i]] == links[k].to_set());
    }
}

/// A check passes if the two trees have the same entries and the same names of each file. The
/// models of two equal scans are equal.
pub proof fn law_check_passes_for_equal_scans(
    saved: Scan,
    restored: Scan,
    models: (Model, Model),
    r: Result<(), String>,
)
    requires
        call_ensures(Scan::into_model, (saved,), models.0),
        call_ensures(Scan::into_model, (restored,), models.1),
        call_ensures(Model::check, (&models.0, &models.1), r),
        saved.entries() == restored.entries(),
        saved.names() == restored.names(),
    ensures
        r is Ok,
{
    let names = saved.names();
    let (files, groups) = choose|fs: Seq<FileId>, gs: Seq<Seq<Seq<Seq<char>>>>| #[trigger]
        lists_groups(names, fs, gs) && models.0@.links.to_multiset() == gs.to_multiset();
    law_links_depend_on_groups(
        names,
        files,
        names,
        files,
        groups,
        models.0@.links,
        models.1@.links,
    );
    assert(models.0@ =~= models.1@);
}

/// The message of a check whose trees have the same paths, but different entries, names a path whose
/// entries differ, and describes the saved entry and then the restored entry. No entry of a path
/// before it differs.
pub proof fn law_message_names_the_first_difference(
    saved: Model,
    restored: Model,
    r: Result<(), String>,
)
    requires
        call_ensures(Model::check, (&saved, &restored), r),
        saved@.entries.dom() == restored@.entries.dom(),
        saved@.entries != restored@.entries,
    ensures
        r is Err,
        exists|path: Seq<Seq<char>>|
            {
                &&& #[trigger] saved@.entries.contains_key(path)
                &&& saved@.entries[path] != restored@.entries[path]
                &&& text::is_substring(
                    r->Err_0@,
                    "entry `"@ + TreePath::path_text(path) + "` differs. Saved: "@
                        + saved@.entries[path].description() + ". Restored: "@
                        + restored@.entries[path].description() + "."@,
                )
                &&& forall|other: Seq<Seq<char>>| #[trigger]
                    saved@.entries.contains_key(other) && tree_path::path_order()(other, path)
                        ==> saved@.entries[other] == restored@.entries[other]
            },
{
    let (a, b) = (saved@.entries, restored@.entries);
    let message = r->Err_0@;
    let path = choose|path: Seq<Seq<char>>| #[trigger]
        first_differs(a, b, path) && message == entry_message(path, a[path], b[path]);
    let part = "entry `"@ + TreePath::path_text(path) + "` differs. Saved: "@
        + a[path].description() + ". Restored: "@ + b[path].description() + "."@;
    reveal_strlit("The restored entry `");
    reveal_strlit("The restored ");
    reveal_strlit("entry `");
    assert("The restored entry `"@ =~= "The restored "@ + "entry `"@);
    assert(message =~= ("The restored "@ + part) + Seq::empty());
    text::lemma_substring(message, part);
    assert(a.contains_key(path));
}

/// A check gives an error if the names of a file of one tree are the names of no file of the other
/// tree, even if all entries are equal.
pub proof fn law_check_sees_each_group(
    saved: Scan,
    restored: Scan,
    models: (Model, Model),
    r: Result<(), String>,
    file: FileId,
)
    requires
        call_ensures(Scan::into_model, (saved,), models.0),
        call_ensures(Scan::into_model, (restored,), models.1),
        call_ensures(Model::check, (&models.0, &models.1), r),
        saved.names().contains_key(file),
        forall|other: FileId| #[trigger]
            restored.names().contains_key(other) ==> restored.names()[other] != saved.names()[file],
    ensures
        r is Err,
{
    law_model_groups_the_names(saved, models.0);
    law_model_groups_the_names(restored, models.1);
    if r is Ok {
        let k = choose|k: int|
            0 <= k < models.0@.links.len() && (#[trigger] models.0@.links[k]).to_set()
                == saved.names()[file];
        assert(models.1@.links[k].to_set() == saved.names()[file]);
        assert(restored.names().contains_value(saved.names()[file]));
        let other = choose|other: FileId| #[trigger]
            restored.names().contains_key(other) && restored.names()[other]
                == saved.names()[file];
        assert(restored.names().contains_key(other));
    }
}

/// The description of an entry tells its permission bits, and the seconds and the nanoseconds of its
/// modification time. The description of a file tells its length, and that of a symlink its target.
pub proof fn law_description_tells_the_metadata(entry: Entry, r: String)
    requires
        call_ensures(Entry::describe, (&entry,), r),
    ensures
        entry.mode is Some ==> text::is_substring(
            r@,
            "mode Some("@ + text::decimal(entry.mode->0 as nat) + ")"@,
        ),
        entry.mtime.secs >= 0 ==> text::is_substring(
            r@,
            "tv_sec: "@ + text::decimal(entry.mtime.secs as nat) + ", tv_nsec: "@ + text::decimal(
                entry.mtime.nanos as nat,
            ),
        ),
        entry.mtime.secs < 0 ==> text::is_substring(
            r@,
            "tv_sec: -"@ + text::decimal((-entry.mtime.secs) as nat) + ", tv_nsec: "@
                + text::decimal(entry.mtime.nanos as nat),
        ),
        entry.kind is File ==> text::is_substring(
            r@,
            "file of "@ + text::decimal(entry.kind->File_0@.len()) + " bytes"@,
        ),
        entry.kind is Symlink ==> text::is_substring(
            r@,
            "symlink to `"@ + entry.kind->Symlink_0@ + "`"@,
        ),
{
    let kind = entry.kind@.description();
    let mode = mode_text(entry.mode);
    let secs = signed_text(entry.mtime.secs as int);
    let nanos = text::decimal(entry.mtime.nanos as nat);
    reveal_strlit(", mode ");
    reveal_strlit(", ");
    reveal_strlit("mode ");
    reveal_strlit("mode Some(");
    reveal_strlit("Some(");
    reveal_strlit(", mtime SystemTime { tv_sec: ");
    reveal_strlit(", mtime SystemTime { ");
    reveal_strlit("tv_sec: ");
    reveal_strlit("tv_sec: -");
    reveal_strlit("-");
    assert(", mode "@ =~= ", "@ + "mode "@);
    assert("mode Some("@ =~= "mode "@ + "Some("@);
    assert(", mtime SystemTime { tv_sec: "@ =~= ", mtime SystemTime { "@ + "tv_sec: "@);
    assert("tv_sec: -"@ =~= "tv_sec: "@ + "-"@);
    let end = ", mtime SystemTime { "@ + "tv_sec: "@ + secs + ", tv_nsec: "@ + nanos + " }"@;
    assert(r@ =~= kind + ", "@ + ("mode "@ + mode) + end);
    if entry.mode is Some {
        let part = "mode Some("@ + text::decimal(entry.mode->0 as nat) + ")"@;
        assert(part =~= "mode "@ + mode);
        assert(r@ =~= ((kind + ", "@) + part) + end);
        text::lemma_substring(r@, part);
    }
    let part = "tv_sec: "@ + secs + ", tv_nsec: "@ + nanos;
    let start = kind + ", "@ + "mode "@ + mode + ", mtime SystemTime { "@;
    assert(r@ =~= (start + part) + " }"@);
    text::lemma_substring(r@, part);
    if entry.mtime.secs < 0 {
        let n = text::decimal((-entry.mtime.secs) as nat);
        assert("tv_sec: -"@ + n + ", tv_nsec: "@ + nanos =~= part);
    }
    assert(r@ =~= (Seq::empty() + kind) + r@.skip(kind.len() as int));
    text::lemma_substring(r@, kind);
}

/// The message of a check whose trees have different paths lists the saved paths that the restored tree
/// does not have, and then the paths that only the restored tree has.
pub proof fn law_message_lists_the_paths(saved: Model, restored: Model, r: Result<(), String>)
    requires
        call_ensures(Model::check, (&saved, &restored), r),
        saved@.entries.dom() != restored@.entries.dom(),
    ensures
        r is Err,
        exists|missing: Seq<Seq<Seq<char>>>, extra: Seq<Seq<Seq<char>>>|
            {
                &&& (#[trigger] missing.to_set()) == saved@.entries.dom().difference(
                    restored@.entries.dom(),
                )
                &&& (#[trigger] extra.to_set()) == restored@.entries.dom().difference(
                    saved@.entries.dom(),
                )
                &&& text::is_substring(
                    r->Err_0@,
                    "Missing: "@ + text::list_text(path_texts(missing)) + ". Extra: "@
                        + text::list_text(path_texts(extra)) + "."@,
                )
            },
{
    let (a, b) = (saved@.entries, restored@.entries);
    let message = r->Err_0@;
    let (missing, extra) = choose|missing: Seq<Seq<Seq<char>>>, extra: Seq<Seq<Seq<char>>>|
        {
            &&& #[trigger] lists_paths(missing, a.dom().difference(b.dom()))
            &&& #[trigger] lists_paths(extra, b.dom().difference(a.dom()))
            &&& message == paths_message(path_texts(missing), path_texts(extra))
        };
    assert(missing.to_set() =~= a.dom().difference(b.dom())) by {
        assert forall|path: Seq<Seq<char>>| missing.to_set().contains(path) <==> a.dom().difference(
            b.dom(),
        ).contains(path) by {
            assert(missing.contains(path) <==> a.dom().difference(b.dom()).contains(path));
        }
    }
    assert(extra.to_set() =~= b.dom().difference(a.dom())) by {
        assert forall|path: Seq<Seq<char>>| extra.to_set().contains(path) <==> b.dom().difference(
            a.dom(),
        ).contains(path) by {
            assert(extra.contains(path) <==> b.dom().difference(a.dom()).contains(path));
        }
    }
    let part = "Missing: "@ + text::list_text(path_texts(missing)) + ". Extra: "@ + text::list_text(
        path_texts(extra),
    ) + "."@;
    reveal_strlit("The restored tree has other paths. Missing: ");
    reveal_strlit("The restored tree has other paths. ");
    reveal_strlit("Missing: ");
    assert("The restored tree has other paths. Missing: "@
        =~= "The restored tree has other paths. "@ + "Missing: "@);
    assert(message =~= ("The restored tree has other paths. "@ + part) + Seq::empty());
    text::lemma_substring(message, part);
}

/// The message of a check whose trees differ only in their hard links lists the groups of the saved
/// tree, and then the groups of the restored tree.
pub proof fn law_message_lists_the_groups(saved: Model, restored: Model, r: Result<(), String>)
    requires
        call_ensures(Model::check, (&saved, &restored), r),
        saved@.entries == restored@.entries,
        saved@.links != restored@.links,
    ensures
        r is Err,
        text::is_substring(
            r->Err_0@,
            text::list_text(group_texts(saved@.links)) + ". Restored groups: "@ + text::list_text(
                group_texts(restored@.links),
            ),
        ),
{
    let part = text::list_text(group_texts(saved@.links)) + ". Restored groups: "@
        + text::list_text(group_texts(restored@.links));
    let message = r->Err_0@;
    assert(message == links_message(group_texts(saved@.links), group_texts(restored@.links)));
    let at = message.len() - part.len() - "."@.len();
    assert(message =~= (message.take(at) + part) + "."@);
    text::lemma_substring(message, part);
}

} // verus!
