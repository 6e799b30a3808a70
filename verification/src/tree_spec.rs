//! Random source trees.

use vstd::prelude::*;

use crate::paths;
use crate::rng::{self, Rng, Time};
use crate::text::{self, owned, push_decimal};

verus! {

/// The directories of each source tree, below the root of the tree.
pub const DIRS: [&'static str; 3] = ["d0", "d0/d1", "d2"];

/// The permission bits of the files of a tree.
pub const FILE_MODES: [u32; 4] = [0o644, 0o600, 0o755, 0o444];

/// The permission bits of the directories of a tree.
pub const DIR_MODES: [u32; 3] = [0o755, 0o700, 0o555];

/// The targets of the symlinks of a tree. Some targets do not exist.
pub const LINK_TARGETS: [&'static str; 4] = ["f0", "../f0", "missing", "d0"];

/// A directory of a source tree.
#[derive(Debug, Clone, Copy, PartialEq, Eq, Structural)]
pub enum Location {
    /// The root of the tree.
    Root,
    /// The directory with this index in [`DIRS`].
    Dir(usize),
}

/// A file of a source tree.
#[derive(Debug, Clone, Copy, PartialEq, Eq, Structural)]
pub struct FileSpec {
    /// The directory of the file.
    pub dir: Location,
    /// The length of the file.
    pub len: usize,
    /// The seed of the content of the file.
    pub seed: u64,
    /// The permission bits of the file.
    pub mode: u32,
    /// The modification time of the file, after the epoch.
    pub mtime: Time,
}

/// A symlink of a source tree.
#[derive(Debug, Clone, Copy)]
pub struct LinkSpec {
    /// The directory of the symlink.
    pub dir: Location,
    /// The target of the symlink.
    pub target: &'static str,
}

/// A second name of a file of a source tree.
#[derive(Debug, Clone, Copy, PartialEq, Eq, Structural)]
pub struct HardLinkSpec {
    /// The directory of the second name.
    pub dir: Location,
    /// The index of the file.
    pub file: usize,
}

/// An entry of a source tree that the backup cannot read.
#[derive(Debug, Clone, Copy, PartialEq, Eq, Structural)]
pub enum Unreadable {
    /// The file with this index has no permissions.
    File(usize),
    /// The directory with this index in [`DIRS`] has no permissions, as in [`Location::Dir`].
    Dir(usize),
}

/// A source tree.
///
/// The tree has the directories of [`DIRS`], the files `f<index>`, the symlinks `l<index>`, and
/// sometimes a second name `h` of a file.
#[derive(Debug)]
pub struct TreeSpec {
    /// The files.
    pub files: Vec<FileSpec>,
    /// The symlinks.
    pub links: Vec<LinkSpec>,
    /// The second name of a file.
    pub hard_link: Option<HardLinkSpec>,
    /// The permission bits of each directory of [`DIRS`].
    pub dir_modes: [u32; 3],
    /// The modification time of each directory of [`DIRS`].
    pub dir_mtimes: [Time; 3],
    /// The entry that the backup cannot read.
    pub unreadable: Option<Unreadable>,
}

/// What a [`TreeSpec`] describes.
#[verifier::ext_equal]
pub ghost struct TreeModel {
    /// The files.
    pub files: Seq<FileSpec>,
    /// The symlinks.
    pub links: Seq<LinkSpec>,
    /// The second name of a file.
    pub hard_link: Option<HardLinkSpec>,
    /// The permission bits of each directory.
    pub dir_modes: Seq<u32>,
    /// The modification time of each directory.
    pub dir_mtimes: Seq<Time>,
    /// The entry that the backup cannot read.
    pub unreadable: Option<Unreadable>,
}

impl View for TreeSpec {
    type V = TreeModel;

    open spec fn view(&self) -> TreeModel {
        TreeModel {
            files: self.files@,
            links: self.links@,
            hard_link: self.hard_link,
            dir_modes: self.dir_modes@,
            dir_mtimes: self.dir_mtimes@,
            unreadable: self.unreadable,
        }
    }
}

impl Location {
    /// The location that a generator with the state `s` gives.
    pub open spec fn generated(s: u64) -> Location {
        let n = rng::rng_below(s, DIRS@.len() + 1);
        if n == 0 {
            Location::Root
        } else {
            Location::Dir((n - 1) as usize)
        }
    }

    /// Whether the location is the root or a directory of [`DIRS`].
    pub open spec fn is_known(self) -> bool {
        self matches Location::Dir(index) ==> index < DIRS@.len()
    }

    /// The path of the location relative to the root of the tree.
    pub open spec fn path_text(self) -> Seq<char> {
        match self {
            Location::Root => ""@,
            Location::Dir(index) => DIRS@[index as int]@,
        }
    }

    /// Generates a location. Each directory of [`DIRS`] and the root have the same chance.
    pub fn generate(rng: &mut Rng) -> (r: Self)
        ensures
            r == Self::generated(old(rng).state),
            final(rng).state == rng::rng_step(old(rng).state),
            r.is_known(),
    {
        match rng.below(DIRS.len() + 1).checked_sub(1) {
            None => Location::Root,
            Some(index) => Location::Dir(index),
        }
    }

    /// Gives the path of the location relative to the root of the tree.
    pub fn path(self) -> (r: &'static str)
        requires
            self.is_known(),
        ensures
            r@ == self.path_text(),
    {
        match self {
            Location::Root => "",
            Location::Dir(index) => DIRS[index],
        }
    }
}

/// The state after `n` values of a generator with the state `s`.
pub open spec fn steps(s: u64, n: nat) -> u64
    decreases n,
{
    if n == 0 {
        s
    } else {
        steps(rng::rng_step(s), (n - 1) as nat)
    }
}

/// The length of a file, and the state after it. Most files are small.
pub open spec fn generated_len(s: u64) -> (usize, u64) {
    let class = rng::rng_below(s, 8);
    let next = rng::rng_step(s);
    if class == 0 {
        (0, next)
    } else if class <= 4 {
        ((1 + rng::rng_below(next, 4_096)) as usize, rng::rng_step(next))
    } else if class <= 6 {
        ((4_096 + rng::rng_below(next, 20_000)) as usize, rng::rng_step(next))
    } else {
        ((500_000 + rng::rng_below(next, 200_000)) as usize, rng::rng_step(next))
    }
}

impl FileSpec {
    /// The file that a generator with the state `s` gives, and the state after it.
    pub open spec fn generated(s: u64) -> (FileSpec, u64) {
        let (len, after_len) = generated_len(rng::rng_step(s));
        let after_seed = rng::rng_step(after_len);
        let after_mode = rng::rng_step(after_seed);
        (
            FileSpec {
                dir: Location::generated(s),
                len,
                seed: rng::rng_value(after_len),
                mode: FILE_MODES@[rng::rng_below(after_seed, FILE_MODES@.len()) as int],
                mtime: rng::rng_time(after_mode),
            },
            steps(after_mode, 2),
        )
    }

    /// Whether the file has an existing directory, a length below 700,000 and the permission bits
    /// of a file.
    pub open spec fn well_formed(self) -> bool {
        &&& self.dir.is_known()
        &&& self.len < 700_000
        &&& FILE_MODES@.contains(self.mode)
    }

    /// Generates a file.
    pub fn generate(rng: &mut Rng) -> (r: Self)
        ensures
            (r, final(rng).state) == Self::generated(old(rng).state),
            r.well_formed(),
    {
        let dir = Location::generate(rng);
        let len: usize = match rng.below(8) {
            0 => 0,
            1 | 2 | 3 | 4 => 1 + rng.below(4_096),
            5 | 6 => 4_096 + rng.below(20_000),
            _ => 500_000 + rng.below(200_000),
        };
        let seed: u64 = rng.next_u64();
        let mode: u32 = rng.pick(&FILE_MODES);
        let mtime = rng.time();
        proof {
            reveal_with_fuel(steps, 3);
        }
        FileSpec { dir, len, seed, mode, mtime }
    }
}

impl LinkSpec {
    /// The symlink that a generator with the state `s` gives, and the state after it.
    pub open spec fn generated(s: u64) -> (LinkSpec, u64) {
        (
            LinkSpec {
                dir: Location::generated(s),
                target: LINK_TARGETS@[rng::rng_below(
                    rng::rng_step(s),
                    LINK_TARGETS@.len(),
                ) as int],
            },
            steps(s, 2),
        )
    }

    /// Generates a symlink.
    pub fn generate(rng: &mut Rng) -> (r: Self)
        ensures
            (r, final(rng).state) == Self::generated(old(rng).state),
            r.dir.is_known(),
            LINK_TARGETS@.contains(r.target),
    {
        let dir = Location::generate(rng);
        let target = rng.pick(&LINK_TARGETS);
        proof {
            reveal_with_fuel(steps, 3);
        }
        LinkSpec { dir, target }
    }
}

/// The first `n` files that a generator with the state `s` gives, and the state after them.
pub open spec fn generated_files(s: u64, n: nat) -> (Seq<FileSpec>, u64)
    decreases n,
{
    if n == 0 {
        (Seq::empty(), s)
    } else {
        let (before, state) = generated_files(s, (n - 1) as nat);
        let (file, next) = FileSpec::generated(state);
        (before.push(file), next)
    }
}

/// The first `n` symlinks that a generator with the state `s` gives, and the state after them.
pub open spec fn generated_links(s: u64, n: nat) -> (Seq<LinkSpec>, u64)
    decreases n,
{
    if n == 0 {
        (Seq::empty(), s)
    } else {
        let (before, state) = generated_links(s, (n - 1) as nat);
        let (link, next) = LinkSpec::generated(state);
        (before.push(link), next)
    }
}

/// The second name of one of `files` files, and the state after it. One tree of four has one.
pub open spec fn generated_hard_link(s: u64, files: nat) -> (Option<HardLinkSpec>, u64) {
    let next = rng::rng_step(s);
    if rng::rng_below(s, 4) < 1 {
        (
            Some(
                HardLinkSpec {
                    dir: Location::generated(next),
                    file: rng::rng_below(rng::rng_step(next), files) as usize,
                },
            ),
            steps(next, 2),
        )
    } else {
        (None, next)
    }
}

/// The unreadable entry of a tree with `files` files, and the state after it. One tree of six has
/// one, if trees may have one.
pub open spec fn generated_unreadable(s: u64, allow: bool, files: nat) -> (Option<Unreadable>, u64) {
    let next = rng::rng_step(s);
    if !allow {
        (None, s)
    } else if rng::rng_below(s, 6) < 1 {
        let kind = rng::rng_below(next, 2);
        let index = rng::rng_step(next);
        (
            Some(
                if kind < 1 {
                    Unreadable::File(rng::rng_below(index, files) as usize)
                } else {
                    Unreadable::Dir(rng::rng_below(index, DIRS@.len()) as usize)
                },
            ),
            steps(next, 2),
        )
    } else {
        (None, next)
    }
}

impl TreeModel {
    /// The tree that a generator with the state `s` gives, and the state after it.
    pub open spec fn generated(s: u64, allow_unreadable: bool) -> (TreeModel, u64) {
        let (files, s1) = generated_files(rng::rng_step(s), rng::rng_below(s, 8) + 1);
        let (links, s2) = generated_links(rng::rng_step(s1), rng::rng_below(s1, 3));
        let (hard_link, s3) = generated_hard_link(s2, files.len());
        let dir_modes = generated_dir_modes(s3);
        let s4 = steps(s3, DIRS@.len());
        let dir_mtimes = generated_dir_mtimes(s4);
        let (unreadable, s5) = generated_unreadable(
            steps(s4, 2 * DIRS@.len()),
            allow_unreadable,
            files.len(),
        );
        (TreeModel { files, links, hard_link, dir_modes, dir_mtimes, unreadable }, s5)
    }

    /// Whether the tree has 1 to 8 files and at most two symlinks, and each index and each location
    /// of the tree exists.
    pub open spec fn well_formed(self) -> bool {
        &&& 1 <= self.files.len() <= 8
        &&& self.links.len() <= 2
        &&& forall|i: int| 0 <= i < self.files.len() ==> (#[trigger] self.files[i]).well_formed()
        &&& forall|i: int|
            0 <= i < self.links.len() ==> (#[trigger] self.links[i]).dir.is_known()
                && LINK_TARGETS@.contains(self.links[i].target)
        &&& self.hard_link matches Some(link) ==> link.dir.is_known() && link.file < self.files.len()
        &&& self.dir_modes.len() == DIRS@.len()
        &&& self.dir_mtimes.len() == DIRS@.len()
        &&& match self.unreadable {
            Some(Unreadable::File(index)) => index < self.files.len(),
            Some(Unreadable::Dir(index)) => index < DIRS@.len(),
            None => true,
        }
    }

    /// Whether each index and each location of the tree exists.
    pub open spec fn can_write(self) -> bool {
        &&& forall|i: int| 0 <= i < self.files.len() ==> (#[trigger] self.files[i]).dir.is_known()
        &&& forall|i: int| 0 <= i < self.links.len() ==> (#[trigger] self.links[i]).dir.is_known()
        &&& self.hard_link matches Some(link) ==> link.dir.is_known() && link.file < self.files.len()
        &&& match self.unreadable {
            Some(Unreadable::File(index)) => index < self.files.len(),
            Some(Unreadable::Dir(index)) => index < DIRS@.len(),
            None => true,
        }
    }

    /// The path of the file with the index `index`, relative to the root of the tree.
    pub open spec fn file_text(self, index: int) -> Seq<char> {
        paths::below(self.files[index].dir.path_text(), "f"@ + text::decimal(index as nat))
    }
}

/// The permission bits of the directories that a generator with the state `s` gives.
pub open spec fn generated_dir_modes(s: u64) -> Seq<u32> {
    Seq::new(
        DIRS@.len(),
        |i: int| DIR_MODES@[rng::rng_below(steps(s, i as nat), DIR_MODES@.len()) as int],
    )
}

/// The modification times of the directories that a generator with the state `s` gives.
pub open spec fn generated_dir_mtimes(s: u64) -> Seq<Time> {
    Seq::new(DIRS@.len(), |i: int| rng::rng_time(steps(s, (2 * i) as nat)))
}

/// Generates `count` files.
fn generate_files(rng: &mut Rng, count: usize) -> (r: Vec<FileSpec>)
    ensures
        (r@, final(rng).state) == generated_files(old(rng).state, count as nat),
        r.len() == count,
        forall|i: int| 0 <= i < count ==> (#[trigger] r@[i]).well_formed(),
{
    let mut files: Vec<FileSpec> = Vec::new();
    for i in 0..count
        invariant
            (files@, rng.state) == generated_files(old(rng).state, i as nat),
            files.len() == i,
            forall|j: int| 0 <= j < i ==> (#[trigger] files@[j]).well_formed(),
    {
        let ghost before = files@;
        let file = FileSpec::generate(rng);
        files.push(file);
        assert(files@ =~= before.push(file));
    }
    files
}

/// Generates `count` symlinks.
fn generate_links(rng: &mut Rng, count: usize) -> (r: Vec<LinkSpec>)
    ensures
        (r@, final(rng).state) == generated_links(old(rng).state, count as nat),
        r.len() == count,
        forall|i: int|
            0 <= i < count ==> (#[trigger] r@[i]).dir.is_known() && LINK_TARGETS@.contains(
                r@[i].target,
            ),
{
    let mut links: Vec<LinkSpec> = Vec::new();
    for i in 0..count
        invariant
            (links@, rng.state) == generated_links(old(rng).state, i as nat),
            links.len() == i,
            forall|j: int|
                0 <= j < i ==> (#[trigger] links@[j]).dir.is_known() && LINK_TARGETS@.contains(
                    links@[j].target,
                ),
    {
        let ghost before = links@;
        let link = LinkSpec::generate(rng);
        links.push(link);
        assert(links@ =~= before.push(link));
    }
    links
}

/// Generates the second name of one of `files` files, or none.
fn generate_hard_link(rng: &mut Rng, files: usize) -> (r: Option<HardLinkSpec>)
    requires
        files > 0,
    ensures
        (r, final(rng).state) == generated_hard_link(old(rng).state, files as nat),
        r matches Some(link) ==> link.dir.is_known() && link.file < files,
{
    proof {
        reveal_with_fuel(steps, 3);
    }
    if rng.chance(1, 4) {
        let dir = Location::generate(rng);
        let file: usize = rng.below(files);
        Some(HardLinkSpec { dir, file })
    } else {
        None
    }
}

/// Generates the permission bits of the directories.
fn generate_dir_modes(rng: &mut Rng) -> (r: [u32; 3])
    ensures
        r@ == generated_dir_modes(old(rng).state),
        final(rng).state == steps(old(rng).state, DIRS@.len()),
{
    let first: u32 = rng.pick(&DIR_MODES);
    let second: u32 = rng.pick(&DIR_MODES);
    let third: u32 = rng.pick(&DIR_MODES);
    let r = [first, second, third];
    proof {
        reveal_with_fuel(steps, 4);
        assert(r@ =~= generated_dir_modes(old(rng).state));
    }
    r
}

/// Generates the modification times of the directories.
fn generate_dir_mtimes(rng: &mut Rng) -> (r: [Time; 3])
    ensures
        r@ == generated_dir_mtimes(old(rng).state),
        final(rng).state == steps(old(rng).state, 2 * DIRS@.len()),
{
    let first = rng.time();
    let second = rng.time();
    let third = rng.time();
    let r = [first, second, third];
    proof {
        reveal_with_fuel(steps, 7);
        assert(r@ =~= generated_dir_mtimes(old(rng).state));
    }
    r
}

/// Generates the unreadable entry of a tree with `files` files, or none.
fn generate_unreadable(rng: &mut Rng, allow: bool, files: usize) -> (r: Option<Unreadable>)
    requires
        files > 0,
    ensures
        (r, final(rng).state) == generated_unreadable(old(rng).state, allow, files as nat),
        !allow ==> r is None,
        match r {
            Some(Unreadable::File(index)) => index < files,
            Some(Unreadable::Dir(index)) => index < DIRS@.len(),
            None => true,
        },
{
    proof {
        reveal_with_fuel(steps, 3);
    }
    if allow && rng.chance(1, 6) {
        if rng.chance(1, 2) {
            Some(Unreadable::File(rng.below(files)))
        } else {
            Some(Unreadable::Dir(rng.below(DIRS.len())))
        }
    } else {
        None
    }
}

impl TreeSpec {
    /// Generates a tree.
    ///
    /// # Arguments
    ///
    /// * `rng` - The generator
    /// * `allow_unreadable` - Whether the tree may have an entry that the backup cannot read
    pub fn generate(rng: &mut Rng, allow_unreadable: bool) -> (r: Self)
        ensures
            (r@, final(rng).state) == TreeModel::generated(old(rng).state, allow_unreadable),
            r@.well_formed(),
            !allow_unreadable ==> r.unreadable is None,
    {
        let count: usize = 1 + rng.below(8);
        let files = generate_files(rng, count);
        let count: usize = rng.below(3);
        let links = generate_links(rng, count);
        let hard_link = generate_hard_link(rng, files.len());
        let dir_modes = generate_dir_modes(rng);
        let dir_mtimes = generate_dir_mtimes(rng);
        let unreadable = generate_unreadable(rng, allow_unreadable, files.len());
        TreeSpec { files, links, hard_link, dir_modes, dir_mtimes, unreadable }
    }

    /// Gives the path of the file with the index `index`, relative to the root of the tree.
    pub fn file_path(&self, index: usize) -> (r: String)
        requires
            index < self.files.len(),
            self.files[index as int].dir.is_known(),
        ensures
            r@ == self@.file_text(index as int),
    {
        let mut name = String::new();
        name.append("f");
        push_decimal(&mut name, index as u64);
        assert(name@ =~= "f"@ + text::decimal(index as nat));
        paths::join(self.files[index].dir.path(), name.as_str())
    }
}

/// A file operation that writes a source tree. Its paths are relative to the root of the tree.
#[allow(inconsistent_fields)]
#[derive(Debug)]
pub enum TreeOp {
    /// Create the directory `path`, with the directories above it.
    CreateDir {
        /// The directory.
        path: &'static str,
    },
    /// Write the content for `seed` with `len` bytes to the file `path`.
    WriteFile {
        /// The file.
        path: String,
        /// The seed of the content.
        seed: u64,
        /// The length of the content.
        len: usize,
    },
    /// Set the modification time of the entry `path`.
    SetMtime {
        /// The entry.
        path: String,
        /// The modification time, after the epoch.
        mtime: Time,
    },
    /// Set the permission bits of the entry `path`.
    SetMode {
        /// The entry.
        path: String,
        /// The permission bits.
        mode: u32,
    },
    /// Give the file `file` the second name `path`.
    HardLink {
        /// The file.
        file: String,
        /// The second name.
        path: String,
    },
    /// Create the symlink `path`.
    Symlink {
        /// The target of the symlink.
        target: &'static str,
        /// The symlink.
        path: String,
    },
}

/// What a [`TreeOp`] does.
pub ghost enum TreeAction {
    /// Create a directory.
    CreateDir(Seq<char>),
    /// Write a file.
    WriteFile(Seq<char>, u64, usize),
    /// Set a modification time.
    SetMtime(Seq<char>, Time),
    /// Set permission bits.
    SetMode(Seq<char>, u32),
    /// Give a file a second name.
    HardLink(Seq<char>, Seq<char>),
    /// Create a symlink with a target.
    Symlink(Seq<char>, Seq<char>),
}

impl View for TreeOp {
    type V = TreeAction;

    open spec fn view(&self) -> TreeAction {
        match self {
            TreeOp::CreateDir { path } => TreeAction::CreateDir(path@),
            TreeOp::WriteFile { path, seed, len } => TreeAction::WriteFile(path@, *seed, *len),
            TreeOp::SetMtime { path, mtime } => TreeAction::SetMtime(path@, *mtime),
            TreeOp::SetMode { path, mode } => TreeAction::SetMode(path@, *mode),
            TreeOp::HardLink { file, path } => TreeAction::HardLink(file@, path@),
            TreeOp::Symlink { target, path } => TreeAction::Symlink(target@, path@),
        }
    }
}

impl TreeAction {
    /// Whether the action makes an entry.
    pub open spec fn makes_entry(self) -> bool {
        !(self is SetMtime || self is SetMode)
    }

    /// Whether the action sets the time or the permissions of the directory of [`DIRS`] with the
    /// index `dir`.
    pub open spec fn sets_dir(self, dir: int) -> bool {
        match self {
            TreeAction::SetMtime(path, _) => path == DIRS@[dir]@,
            TreeAction::SetMode(path, _) => path == DIRS@[dir]@,
            _ => false,
        }
    }
}

/// What the operations `ops` do.
pub open spec fn actions_of(ops: Seq<TreeOp>) -> Seq<TreeAction> {
    ops.map_values(|op: TreeOp| op@)
}

impl TreeModel {
    /// The actions that create the directories.
    pub open spec fn create_dirs(self) -> Seq<TreeAction> {
        Seq::new(DIRS@.len(), |i: int| TreeAction::CreateDir(DIRS@[i]@))
    }

    /// The actions that write the first `n` files.
    pub open spec fn write_files(self, n: nat) -> Seq<TreeAction>
        decreases n,
    {
        if n == 0 {
            Seq::empty()
        } else {
            let index = n - 1;
            let file = self.files[index];
            let path = self.file_text(index);
            self.write_files(index as nat) + seq![
                TreeAction::WriteFile(path, file.seed, file.len),
                TreeAction::SetMtime(path, file.mtime),
                TreeAction::SetMode(path, file.mode),
            ]
        }
    }

    /// The actions that give a file its second name.
    pub open spec fn link_names(self) -> Seq<TreeAction> {
        match self.hard_link {
            Some(link) => seq![
                TreeAction::HardLink(
                    self.file_text(link.file as int),
                    paths::below(link.dir.path_text(), "h"@),
                ),
            ],
            None => Seq::empty(),
        }
    }

    /// The actions that create the symlinks.
    pub open spec fn create_links(self) -> Seq<TreeAction> {
        Seq::new(
            self.links.len(),
            |i: int|
                TreeAction::Symlink(
                    self.links[i].target@,
                    paths::below(self.links[i].dir.path_text(), "l"@ + text::decimal(i as nat)),
                ),
        )
    }

    /// The actions that set the times and the permissions of the last `n` directories, from the
    /// last directory on.
    pub open spec fn set_dirs(self, n: nat) -> Seq<TreeAction>
        decreases n,
    {
        if n == 0 {
            Seq::empty()
        } else {
            let index = DIRS@.len() - n;
            self.set_dirs((n - 1) as nat) + seq![
                TreeAction::SetMtime(DIRS@[index]@, self.dir_mtimes[index]),
                TreeAction::SetMode(DIRS@[index]@, self.dir_modes[index]),
            ]
        }
    }

    /// The actions that make an entry unreadable.
    pub open spec fn hide_entry(self) -> Seq<TreeAction> {
        match self.unreadable {
            Some(Unreadable::File(index)) => seq![
                TreeAction::SetMode(self.file_text(index as int), 0),
            ],
            Some(Unreadable::Dir(index)) => seq![TreeAction::SetMode(DIRS@[index as int]@, 0)],
            None => Seq::empty(),
        }
    }

    /// The actions that make the entries of the tree.
    pub open spec fn make_entries(self) -> Seq<TreeAction> {
        self.create_dirs() + self.write_files(self.files.len()) + self.link_names()
            + self.create_links()
    }

    /// The actions that write the tree.
    pub open spec fn actions(self) -> Seq<TreeAction> {
        self.make_entries() + self.set_dirs(DIRS@.len()) + self.hide_entry()
    }
}

proof fn lemma_actions_push(ops: Seq<TreeOp>, op: TreeOp)
    ensures
        actions_of(ops.push(op)) == actions_of(ops).push(op@),
{
    assert(actions_of(ops.push(op)) =~= actions_of(ops).push(op@));
}

impl TreeSpec {
    /// Appends the operations that write the files.
    fn push_files(&self, ops: &mut Vec<TreeOp>)
        requires
            self@.can_write(),
        ensures
            actions_of(final(ops)@) == actions_of(old(ops)@) + self@.write_files(self@.files.len()),
    {
        let n: usize = self.files.len();
        for index in 0..n
            invariant
                n == self.files.len(),
                self@.can_write(),
                actions_of(ops@) == actions_of(old(ops)@) + self@.write_files(index as nat),
        {
            let ghost before = actions_of(ops@);
            let file = self.files[index];
            assert(self@.files[index as int].dir.is_known());
            let path = self.file_path(index);
            let first = TreeOp::WriteFile { path: path.clone(), seed: file.seed, len: file.len };
            let second = TreeOp::SetMtime { path: path.clone(), mtime: file.mtime };
            let third = TreeOp::SetMode { path, mode: file.mode };
            proof {
                let all = ops@;
                lemma_actions_push(all, first);
                lemma_actions_push(all.push(first), second);
                lemma_actions_push(all.push(first).push(second), third);
            }
            ops.push(first);
            ops.push(second);
            ops.push(third);
            assert(actions_of(ops@) =~= before + seq![first@, second@, third@]);
            assert(actions_of(ops@) =~= actions_of(old(ops)@) + self@.write_files(
                (index + 1) as nat,
            ));
        }
    }

    /// Appends the operations that create the symlinks.
    fn push_links(&self, ops: &mut Vec<TreeOp>)
        requires
            self@.can_write(),
        ensures
            actions_of(final(ops)@) == actions_of(old(ops)@) + self@.create_links(),
    {
        let n: usize = self.links.len();
        for index in 0..n
            invariant
                n == self.links.len(),
                self@.can_write(),
                actions_of(ops@) == actions_of(old(ops)@) + self@.create_links().take(index as int),
        {
            let ghost before = actions_of(ops@);
            let link = self.links[index];
            assert(self@.links[index as int].dir.is_known());
            let mut name = String::new();
            name.append("l");
            push_decimal(&mut name, index as u64);
            assert(name@ =~= "l"@ + text::decimal(index as nat));
            let op = TreeOp::Symlink {
                target: link.target,
                path: paths::join(link.dir.path(), name.as_str()),
            };
            proof {
                lemma_actions_push(ops@, op);
            }
            ops.push(op);
            assert(self@.create_links().take(index + 1) =~= self@.create_links().take(
                index as int,
            ).push(op@));
        }
        assert(self@.create_links().take(n as int) =~= self@.create_links());
    }

    /// Appends the operations that set the times and the permissions of the directories.
    fn push_dirs(&self, ops: &mut Vec<TreeOp>)
        ensures
            actions_of(final(ops)@) == actions_of(old(ops)@) + self@.set_dirs(DIRS@.len()),
    {
        let n: usize = DIRS.len();
        for done in 0..n
            invariant
                n == DIRS@.len(),
                actions_of(ops@) == actions_of(old(ops)@) + self@.set_dirs(done as nat),
        {
            let ghost before = actions_of(ops@);
            let index: usize = n - 1 - done;
            let first = TreeOp::SetMtime { path: owned(DIRS[index]), mtime: self.dir_mtimes[index] };
            let second = TreeOp::SetMode { path: owned(DIRS[index]), mode: self.dir_modes[index] };
            proof {
                lemma_actions_push(ops@, first);
                lemma_actions_push(ops@.push(first), second);
            }
            ops.push(first);
            ops.push(second);
            assert(actions_of(ops@) =~= actions_of(old(ops)@) + self@.set_dirs((done + 1) as nat));
        }
    }

    /// Gives the operations that write the tree, in their order.
    ///
    /// The operations set the times and the permissions of the directories last, so that the
    /// entries of a directory do not change its time, and a read-only directory can get entries.
    pub fn write(&self) -> (r: Vec<TreeOp>)
        requires
            self@.can_write(),
        ensures
            actions_of(r@) == self@.actions(),
    {
        let mut ops: Vec<TreeOp> = Vec::new();
        let n: usize = DIRS.len();
        for index in 0..n
            invariant
                n == DIRS@.len(),
                actions_of(ops@) == self@.create_dirs().take(index as int),
        {
            let op = TreeOp::CreateDir { path: DIRS[index] };
            proof {
                lemma_actions_push(ops@, op);
            }
            ops.push(op);
            assert(self@.create_dirs().take(index + 1) =~= self@.create_dirs().take(
                index as int,
            ).push(op@));
        }
        assert(self@.create_dirs().take(n as int) =~= self@.create_dirs());
        self.push_files(&mut ops);
        if let Some(link) = self.hard_link {
            assert(self@.files[link.file as int].dir.is_known());
            let op = TreeOp::HardLink {
                file: self.file_path(link.file),
                path: paths::join(link.dir.path(), "h"),
            };
            proof {
                lemma_actions_push(ops@, op);
            }
            ops.push(op);
        }
        assert(actions_of(ops@) =~= self@.create_dirs() + self@.write_files(self@.files.len())
            + self@.link_names());
        self.push_links(&mut ops);
        self.push_dirs(&mut ops);
        match self.unreadable {
            Some(Unreadable::File(index)) => {
                assert(self@.files[index as int].dir.is_known());
                let op = TreeOp::SetMode { path: self.file_path(index), mode: 0 };
                proof {
                    lemma_actions_push(ops@, op);
                }
                ops.push(op);
            },
            Some(Unreadable::Dir(index)) => {
                let op = TreeOp::SetMode { path: owned(DIRS[index]), mode: 0 };
                proof {
                    lemma_actions_push(ops@, op);
                }
                ops.push(op);
            },
            None => {},
        }
        assert(actions_of(ops@) =~= self@.actions());
        ops
    }
}

proof fn lemma_dir_has_no_f(dir: int)
    requires
        0 <= dir < DIRS@.len(),
    ensures
        !DIRS@[dir]@.contains('f'),
{
    reveal_strlit("d0");
    reveal_strlit("d0/d1");
    reveal_strlit("d2");
    assert(DIRS@[dir]@ == "d0"@ || DIRS@[dir]@ == "d0/d1"@ || DIRS@[dir]@ == "d2"@);
    assert forall|i: int| 0 <= i < DIRS@[dir]@.len() implies DIRS@[dir]@[i] != 'f' by {}
}

proof fn lemma_file_has_f(model: TreeModel, index: int)
    ensures
        model.file_text(index).contains('f'),
{
    reveal_strlit("f");
    let name = "f"@ + text::decimal(index as nat);
    let path = model.file_text(index);
    paths::lemma_below_ends(model.files[index].dir.path_text(), name);
    assert(name[0] == 'f');
    assert(path.skip(path.len() - name.len())[0] == 'f');
    assert(path[path.len() - name.len()] == 'f');
}

proof fn lemma_files_set_no_dir(model: TreeModel, n: nat, dir: int)
    requires
        0 <= dir < DIRS@.len(),
    ensures
        forall|i: int|
            0 <= i < model.write_files(n).len() ==> !(#[trigger] model.write_files(n)[i]).sets_dir(
                dir,
            ),
    decreases n,
{
    if n > 0 {
        lemma_files_set_no_dir(model, (n - 1) as nat, dir);
        lemma_file_has_f(model, n - 1);
        lemma_dir_has_no_f(dir);
        let before = model.write_files((n - 1) as nat);
        assert forall|i: int| 0 <= i < model.write_files(n).len() implies !(
        #[trigger] model.write_files(n)[i]).sets_dir(dir) by {
            if i < before.len() {
                assert(model.write_files(n)[i] == before[i]);
            }
        }
    }
}

proof fn lemma_set_dirs_makes_nothing(model: TreeModel, n: nat)
    ensures
        forall|i: int|
            0 <= i < model.set_dirs(n).len() ==> !(#[trigger] model.set_dirs(n)[i]).makes_entry(),
    decreases n,
{
    if n > 0 {
        lemma_set_dirs_makes_nothing(model, (n - 1) as nat);
        let before = model.set_dirs((n - 1) as nat);
        assert forall|i: int| 0 <= i < model.set_dirs(n).len() implies !(
        #[trigger] model.set_dirs(n)[i]).makes_entry() by {
            if i < before.len() {
                assert(model.set_dirs(n)[i] == before[i]);
            }
        }
    }
}

/// The writing of a tree sets the time and the permissions of a directory after it made all
/// entries. So no entry changes the time of its directory, and a read-only directory gets its
/// entries.
pub proof fn law_directories_come_last(model: TreeModel, entry: int, setting: int, dir: int)
    requires
        0 <= entry < model.actions().len(),
        0 <= setting < model.actions().len(),
        0 <= dir < DIRS@.len(),
        model.actions()[entry].makes_entry(),
        model.actions()[setting].sets_dir(dir),
    ensures
        entry < setting,
{
    let n = model.make_entries().len();
    lemma_files_set_no_dir(model, model.files.len(), dir);
    lemma_set_dirs_makes_nothing(model, DIRS@.len());
    let first = model.create_dirs();
    let second = first + model.write_files(model.files.len());
    let third = second + model.link_names();
    if setting < n {
        let action = model.make_entries()[setting];
        assert(action == model.actions()[setting]);
        if setting < first.len() {
            assert(action == first[setting]);
        } else if setting < second.len() {
            assert(action == model.write_files(model.files.len())[setting - first.len()]);
        } else if setting < third.len() {
            assert(action == model.link_names()[setting - second.len()]);
        } else {
            assert(action == model.create_links()[setting - third.len()]);
        }
        assert(false);
    }
    if entry >= n {
        let action = model.actions()[entry];
        let m = n + model.set_dirs(DIRS@.len()).len();
        if entry < m {
            assert(action == model.set_dirs(DIRS@.len())[entry - n]);
        } else {
            assert(action == model.hide_entry()[entry - m]);
        }
        assert(false);
    }
}

/// The path of the entry `name` in the directory `dir`.
pub open spec fn entry_path(dir: Location, name: Seq<char>) -> Seq<char> {
    match dir {
        Location::Root => name,
        Location::Dir(index) => DIRS@[index as int]@ + seq!['/'] + name,
    }
}

/// Whether the operation writes the file `path`.
pub open spec fn writes(op: TreeOp, path: Seq<char>) -> bool {
    op matches TreeOp::WriteFile { path: p, .. } && p@ == path
}

/// Whether the operation sets the modification time of `path`.
pub open spec fn dates(op: TreeOp, path: Seq<char>) -> bool {
    op matches TreeOp::SetMtime { path: p, .. } && p@ == path
}

/// Whether the operation sets the permission bits of `path`.
pub open spec fn permits(op: TreeOp, path: Seq<char>) -> bool {
    op matches TreeOp::SetMode { path: p, .. } && p@ == path
}

/// Whether the operation creates the symlink `path`.
pub open spec fn links(op: TreeOp, path: Seq<char>) -> bool {
    op matches TreeOp::Symlink { path: p, .. } && p@ == path
}

proof fn lemma_dir_texts()
    ensures
        DIRS@.len() == 3,
        forall|i: int| 0 <= i < 3 ==> (#[trigger] DIRS@[i])@.len() > 0 && DIRS@[i]@.last() != '/',
        forall|i: int, j: int| 0 <= i < j < 3 ==> (#[trigger] DIRS@[i])@ != (#[trigger] DIRS@[j])@,
        ""@.len() == 0,
{
    reveal_strlit("");
    reveal_strlit("d0");
    reveal_strlit("d0/d1");
    reveal_strlit("d2");
    assert("d0"@[1] != "d2"@[1]);
    assert forall|i: int| 0 <= i < 3 implies (#[trigger] DIRS@[i])@.len() > 0 && DIRS@[i]@.last()
        != '/' by {
        assert(i == 0 || i == 1 || i == 2);
    }
    assert forall|i: int, j: int| 0 <= i < j < 3 implies (#[trigger] DIRS@[i])@ != (
    #[trigger] DIRS@[j])@ by {
        assert(i == 0 || i == 1);
        assert(j == 1 || j == 2);
        assert("d0"@.len() != "d0/d1"@.len());
    }
}

proof fn lemma_entry_path(dir: Location, name: Seq<char>)
    requires
        dir.is_known(),
    ensures
        paths::below(dir.path_text(), name) == entry_path(dir, name),
{
    lemma_dir_texts();
}

/// Names without `/` identify the entries of a directory, and the directory.
proof fn lemma_entry_path_identifies(a: Location, x: Seq<char>, b: Location, y: Seq<char>)
    requires
        a.is_known(),
        b.is_known(),
        !x.contains('/'),
        !y.contains('/'),
        entry_path(a, x) == entry_path(b, y),
    ensures
        x == y,
        a == b,
{
    lemma_dir_texts();
    let path = entry_path(a, x);
    let before = path.len() - x.len() - 1;
    let other = path.len() - y.len() - 1;
    match (a, b) {
        (Location::Root, Location::Root) => {},
        (Location::Root, Location::Dir(_)) => {
            assert(path[other] == '/');
            assert(x[other] == '/');
        },
        (Location::Dir(_), Location::Root) => {
            assert(path[before] == '/');
            assert(y[before] == '/');
        },
        (Location::Dir(i), Location::Dir(j)) => {
            assert(path[before] == '/');
            assert(path[other] == '/');
            if before < other {
                assert(path[other] == x[other - before - 1]);
                assert(x.contains('/'));
            }
            if other < before {
                assert(path[before] == y[before - other - 1]);
                assert(y.contains('/'));
            }
            assert(x =~= path.skip(before + 1));
            assert(y =~= path.skip(before + 1));
            assert(DIRS@[i as int]@ =~= path.take(before));
            assert(DIRS@[j as int]@ =~= path.take(before));
        },
    }
}

proof fn lemma_name(letter: char, n: nat)
    requires
        letter != '/',
    ensures
        !(seq![letter] + text::decimal(n)).contains('/'),
{
    text::law_decimal_has_the_value(n);
    let name = seq![letter] + text::decimal(n);
    assert forall|i: int| 0 <= i < name.len() implies name[i] != '/' by {
        if i > 0 {
            assert(name[i] == text::decimal(n)[i - 1]);
        }
    }
}

proof fn lemma_names_differ(letter: char, a: nat, b: nat)
    requires
        seq![letter] + text::decimal(a) == seq![letter] + text::decimal(b),
    ensures
        a == b,
{
    let (x, y) = (seq![letter] + text::decimal(a), seq![letter] + text::decimal(b));
    assert(x.skip(1) =~= text::decimal(a));
    assert(y.skip(1) =~= text::decimal(b));
    text::law_decimal_identifies(a, b);
}

proof fn lemma_write_files_at(model: TreeModel, n: nat, j: int)
    requires
        n <= model.files.len(),
        0 <= j < n,
    ensures
        model.write_files(n).len() == 3 * n,
        model.write_files(n)[3 * j] == TreeAction::WriteFile(
            model.file_text(j),
            model.files[j].seed,
            model.files[j].len,
        ),
        model.write_files(n)[3 * j + 1] == TreeAction::SetMtime(
            model.file_text(j),
            model.files[j].mtime,
        ),
        model.write_files(n)[3 * j + 2] == TreeAction::SetMode(
            model.file_text(j),
            model.files[j].mode,
        ),
    decreases n,
{
    let before = model.write_files((n - 1) as nat);
    lemma_write_files_len(model, (n - 1) as nat);
    if j < n - 1 {
        lemma_write_files_at(model, (n - 1) as nat, j);
        assert(model.write_files(n)[3 * j] == before[3 * j]);
        assert(model.write_files(n)[3 * j + 1] == before[3 * j + 1]);
        assert(model.write_files(n)[3 * j + 2] == before[3 * j + 2]);
    }
}

proof fn lemma_write_files_len(model: TreeModel, n: nat)
    ensures
        model.write_files(n).len() == 3 * n,
    decreases n,
{
    if n > 0 {
        lemma_write_files_len(model, (n - 1) as nat);
    }
}

proof fn lemma_set_dirs_at(model: TreeModel)
    ensures
        model.set_dirs(3).len() == 6,
        forall|d: int|
            0 <= d < 3 ==> {
                &&& model.set_dirs(3)[2 * (2 - d)] == TreeAction::SetMtime(
                    (#[trigger] DIRS@[d])@,
                    model.dir_mtimes[d],
                )
                &&& model.set_dirs(3)[2 * (2 - d) + 1] == TreeAction::SetMode(
                    DIRS@[d]@,
                    model.dir_modes[d],
                )
            },
{
    reveal_with_fuel(TreeModel::set_dirs, 4);
    assert forall|d: int| 0 <= d < 3 implies {
        &&& model.set_dirs(3)[2 * (2 - d)] == TreeAction::SetMtime(
            (#[trigger] DIRS@[d])@,
            model.dir_mtimes[d],
        )
        &&& model.set_dirs(3)[2 * (2 - d) + 1] == TreeAction::SetMode(
            DIRS@[d]@,
            model.dir_modes[d],
        )
    } by {
        assert(d == 0 || d == 1 || d == 2);
    }
}

/// The parts of the actions of a tree.
proof fn lemma_parts(model: TreeModel)
    ensures
        ({
            let files = 3 + 3 * model.files.len() as int;
            let names = files + model.link_names().len();
            let symlinks = names + model.links.len();
            let dirs = symlinks + 6;
            let all = model.actions();
            &&& all.len() == dirs + model.hide_entry().len()
            &&& forall|k: int| 0 <= k < 3 ==> #[trigger] all[k] == model.create_dirs()[k]
            &&& forall|k: int|
                3 <= k < files ==> #[trigger] all[k] == model.write_files(model.files.len())[k - 3]
            &&& forall|k: int|
                files <= k < names ==> #[trigger] all[k] == model.link_names()[k - files]
            &&& forall|k: int|
                names <= k < symlinks ==> #[trigger] all[k] == model.create_links()[k - names]
            &&& forall|k: int|
                symlinks <= k < dirs ==> #[trigger] all[k] == model.set_dirs(3)[k - symlinks]
            &&& forall|k: int|
                dirs <= k < all.len() ==> #[trigger] all[k] == model.hide_entry()[k - dirs]
        }),
{
    lemma_dir_texts();
    lemma_write_files_len(model, model.files.len());
    lemma_set_dirs_at(model);
}

/// A file action of the position `k` belongs to the file `(k - 3) / 3`.
proof fn lemma_file_action(model: TreeModel, k: int)
    requires
        3 <= k < 3 + 3 * model.files.len(),
    ensures
        ({
            let j = (k - 3) / 3;
            let file = model.files[j];
            let path = model.file_text(j);
            &&& 0 <= j < model.files.len()
            &&& k == 3 + 3 * j ==> model.actions()[k] == TreeAction::WriteFile(
                path,
                file.seed,
                file.len,
            )
            &&& k == 4 + 3 * j ==> model.actions()[k] == TreeAction::SetMtime(path, file.mtime)
            &&& k == 5 + 3 * j ==> model.actions()[k] == TreeAction::SetMode(path, file.mode)
            &&& 3 + 3 * j <= k <= 5 + 3 * j
        }),
{
    let j = (k - 3) / 3;
    lemma_parts(model);
    lemma_write_files_at(model, model.files.len(), j);
}

proof fn lemma_file_path(model: TreeModel, i: int)
    requires
        0 <= i < model.files.len(),
        model.files[i].dir.is_known(),
    ensures
        model.file_text(i) == entry_path(
            model.files[i].dir,
            seq!['f'] + text::decimal(i as nat),
        ),
        !(seq!['f'] + text::decimal(i as nat)).contains('/'),
{
    reveal_strlit("f");
    assert("f"@ =~= seq!['f']);
    lemma_entry_path(model.files[i].dir, seq!['f'] + text::decimal(i as nat));
    lemma_name('f', i as nat);
}

proof fn lemma_same_file(model: TreeModel, i: int, j: int)
    requires
        0 <= i < model.files.len(),
        0 <= j < model.files.len(),
        model.files[i].dir.is_known(),
        model.files[j].dir.is_known(),
        model.file_text(i) == model.file_text(j),
    ensures
        i == j,
{
    lemma_file_path(model, i);
    lemma_file_path(model, j);
    lemma_entry_path_identifies(
        model.files[i].dir,
        seq!['f'] + text::decimal(i as nat),
        model.files[j].dir,
        seq!['f'] + text::decimal(j as nat),
    );
    lemma_names_differ('f', i as nat, j as nat);
}

/// The operations that write a tree write each file exactly once: the file with the index `i` gets
/// the path `f<i>` in its directory, and the content of its own seed and its own length.
pub proof fn law_each_file_is_written_once(tree: TreeSpec, ops: Vec<TreeOp>, i: int)
    requires
        call_ensures(TreeSpec::write, (&tree,), ops),
        forall|j: int|
            0 <= j < tree.files.len() ==> ((#[trigger] tree.files@[j]).dir matches Location::Dir(d)
                ==> d < DIRS@.len()),
        0 <= i < tree.files.len(),
    ensures
        ({
            let path = entry_path(tree.files@[i].dir, seq!['f'] + text::decimal(i as nat));
            exists|k: int|
                {
                    &&& 0 <= k < ops.len()
                    &&& writes(#[trigger] ops@[k], path)
                    &&& ops@[k]->seed == tree.files@[i].seed
                    &&& ops@[k]->len == tree.files@[i].len
                    &&& forall|l: int|
                        0 <= l < ops.len() && writes(#[trigger] ops@[l], path) ==> l == k
                }
        }),
{
    let model = tree@;
    let path = entry_path(tree.files@[i].dir, seq!['f'] + text::decimal(i as nat));
    assert(actions_of(ops@) == model.actions());
    assert forall|l: int| 0 <= l < ops.len() implies model.actions()[l] == #[trigger] ops@[l]@ by {
        assert(actions_of(ops@)[l] == ops@[l]@);
    }
    assert(ops.len() == actions_of(ops@).len());
    lemma_parts(model);
    let k = 3 + 3 * i;
    lemma_file_action(model, k);
    assert(tree.files@[i].dir.is_known());
    lemma_file_path(model, i);
    assert(ops@[k]@ == TreeAction::WriteFile(path, tree.files@[i].seed, tree.files@[i].len));
    assert(writes(ops@[k], path));
    assert forall|l: int| 0 <= l < ops.len() && writes(#[trigger] ops@[l], path) implies l == k by {
        assert(ops@[l]@ is WriteFile);
        lemma_where_writes(model, l);
        lemma_file_action(model, l);
        let j = (l - 3) / 3;
        assert(tree.files@[j].dir.is_known());
        lemma_same_file(model, i, j);
    }
}

/// Only file actions write a file.
proof fn lemma_where_writes(model: TreeModel, l: int)
    requires
        0 <= l < model.actions().len(),
        model.actions()[l] is WriteFile,
    ensures
        3 <= l < 3 + 3 * model.files.len(),
{
    lemma_parts(model);
    lemma_set_dirs_makes_nothing(model, 3);
}

/// The operations that write a tree write no other files.
pub proof fn law_only_the_files_are_written(tree: TreeSpec, ops: Vec<TreeOp>, k: int)
    requires
        call_ensures(TreeSpec::write, (&tree,), ops),
        forall|j: int|
            0 <= j < tree.files.len() ==> ((#[trigger] tree.files@[j]).dir matches Location::Dir(d)
                ==> d < DIRS@.len()),
        0 <= k < ops.len(),
        ops@[k] is WriteFile,
    ensures
        exists|i: int|
            0 <= i < tree.files.len() && writes(
                ops@[k],
                entry_path(
                    (#[trigger] tree.files@[i]).dir,
                    seq!['f'] + text::decimal(i as nat),
                ),
            ),
{
    let model = tree@;
    assert(actions_of(ops@) == model.actions());
    assert(actions_of(ops@)[k] == ops@[k]@);
    lemma_where_writes(model, k);
    lemma_file_action(model, k);
    let i = (k - 3) / 3;
    assert(tree.files@[i].dir.is_known());
    lemma_file_path(model, i);
    assert(writes(
        ops@[k],
        entry_path(tree.files@[i].dir, seq!['f'] + text::decimal(i as nat)),
    ));
}

/// A file is no directory of [`DIRS`].
proof fn lemma_file_is_no_dir(model: TreeModel, i: int, d: int)
    requires
        0 <= d < 3,
    ensures
        model.file_text(i) != DIRS@[d]@,
{
    lemma_dir_texts();
    lemma_dir_has_no_f(d);
    lemma_file_has_f(model, i);
}

/// The actions that set a time or permissions are file actions, directory actions, or the last one.
proof fn lemma_where_sets(model: TreeModel, l: int)
    requires
        0 <= l < model.actions().len(),
        model.actions()[l] is SetMtime || model.actions()[l] is SetMode,
    ensures
        ({
            let symlinks = 3 + 3 * model.files.len() + model.link_names().len()
                + model.links.len();
            let dirs = symlinks + 6;
            let d = 2 - (l - symlinks) / 2;
            &&& 3 <= l < 3 + 3 * model.files.len() || symlinks <= l < dirs || dirs <= l
            &&& symlinks <= l < dirs ==> 0 <= d < 3 && (l == symlinks + 2 * (2 - d) || l == symlinks
                + 2 * (2 - d) + 1)
            &&& dirs <= l ==> l == dirs && model.unreadable is Some && model.actions()[l]
                == match model.unreadable->0 {
                Unreadable::File(index) => TreeAction::SetMode(model.file_text(index as int), 0),
                Unreadable::Dir(index) => TreeAction::SetMode(DIRS@[index as int]@, 0),
            }
        }),
{
    lemma_parts(model);
}

/// A directory action sets the time or the permissions of its directory.
proof fn lemma_dir_action(model: TreeModel, d: int)
    requires
        0 <= d < 3,
    ensures
        ({
            let at = 3 + 3 * model.files.len() + model.link_names().len() + model.links.len() + 2
                * (2 - d);
            &&& at + 1 < model.actions().len()
            &&& model.actions()[at] == TreeAction::SetMtime(DIRS@[d]@, model.dir_mtimes[d])
            &&& model.actions()[at + 1] == TreeAction::SetMode(DIRS@[d]@, model.dir_modes[d])
        }),
{
    lemma_parts(model);
    lemma_set_dirs_at(model);
    lemma_dir_texts();
    let at = 3 + 3 * model.files.len() + model.link_names().len() + model.links.len() + 2 * (2 - d);
    assert(DIRS@[d]@ == DIRS@[d]@);
    assert(model.actions()[at] == model.set_dirs(3)[2 * (2 - d)]);
    assert(model.actions()[at + 1] == model.set_dirs(3)[2 * (2 - d) + 1]);
}

/// The operations that write a tree set the modification time of each file exactly once, after they
/// wrote the file. The last permission bits of a file are its own, or none if the file is the
/// unreadable entry of the tree.
pub proof fn law_each_file_gets_its_metadata(tree: TreeSpec, ops: Vec<TreeOp>, i: int)
    requires
        call_ensures(TreeSpec::write, (&tree,), ops),
        forall|j: int|
            0 <= j < tree.files.len() ==> ((#[trigger] tree.files@[j]).dir matches Location::Dir(d)
                ==> d < DIRS@.len()),
        tree.unreadable matches Some(Unreadable::File(index)) ==> index < tree.files.len(),
        tree.unreadable matches Some(Unreadable::Dir(index)) ==> index < DIRS@.len(),
        0 <= i < tree.files.len(),
    ensures
        ({
            let path = entry_path(tree.files@[i].dir, seq!['f'] + text::decimal(i as nat));
            exists|k: int|
                {
                    &&& 0 <= k < ops.len()
                    &&& dates(#[trigger] ops@[k], path)
                    &&& ops@[k]->mtime == tree.files@[i].mtime
                    &&& forall|l: int|
                        0 <= l < ops.len() && dates(#[trigger] ops@[l], path) ==> l == k
                    &&& forall|l: int|
                        0 <= l < ops.len() && writes(#[trigger] ops@[l], path) ==> l < k
                }
        }),
        ({
            let path = entry_path(tree.files@[i].dir, seq!['f'] + text::decimal(i as nat));
            exists|k: int|
                {
                    &&& 0 <= k < ops.len()
                    &&& permits(#[trigger] ops@[k], path)
                    &&& ops@[k]->mode == if tree.unreadable == Some(Unreadable::File(i as usize)) {
                        0
                    } else {
                        tree.files@[i].mode
                    }
                    &&& forall|l: int|
                        0 <= l < ops.len() && (permits(#[trigger] ops@[l], path) || writes(
                            ops@[l],
                            path,
                        )) ==> l <= k
                }
        }),
{
    let model = tree@;
    let path = entry_path(tree.files@[i].dir, seq!['f'] + text::decimal(i as nat));
    assert(actions_of(ops@) == model.actions());
    assert forall|l: int| 0 <= l < ops.len() implies model.actions()[l] == #[trigger] ops@[l]@ by {
        assert(actions_of(ops@)[l] == ops@[l]@);
    }
    assert(ops.len() == actions_of(ops@).len());
    lemma_parts(model);
    assert(tree.files@[i].dir.is_known());
    lemma_file_path(model, i);
    lemma_dir_texts();
    assert forall|l: int| 0 <= l < ops.len() && writes(#[trigger] ops@[l], path) implies l == 3 + 3
        * i by {
        lemma_where_writes(model, l);
        lemma_file_action(model, l);
        let j = (l - 3) / 3;
        assert(tree.files@[j].dir.is_known());
        lemma_same_file(model, i, j);
    }
    let k = 4 + 3 * i;
    lemma_file_action(model, k);
    assert(ops@[k]@ == TreeAction::SetMtime(path, tree.files@[i].mtime));
    assert(dates(ops@[k], path));
    assert forall|l: int| 0 <= l < ops.len() && dates(#[trigger] ops@[l], path) implies l == k by {
        lemma_set_of_file(model, i, l);
    }
    let dirs = 9 + 3 * model.files.len() + model.link_names().len() + model.links.len();
    let hidden = tree.unreadable == Some(Unreadable::File(i as usize));
    let m = if hidden {
        dirs as int
    } else {
        5 + 3 * i
    };
    lemma_file_action(model, 5 + 3 * i);
    assert(ops@[m]@ is SetMode);
    assert(permits(ops@[m], path));
    assert forall|l: int|
        0 <= l < ops.len() && (permits(#[trigger] ops@[l], path) || writes(
            ops@[l],
            path,
        )) implies l <= m by {
        if permits(ops@[l], path) {
            lemma_set_of_file(model, i, l);
        }
    }
}

/// An action that sets something of a file is one of its file actions, or the last one.
proof fn lemma_set_of_file(model: TreeModel, i: int, l: int)
    requires
        forall|j: int| 0 <= j < model.files.len() ==> (#[trigger] model.files[j]).dir.is_known(),
        model.unreadable matches Some(Unreadable::File(index)) ==> index < model.files.len(),
        model.unreadable matches Some(Unreadable::Dir(index)) ==> index < DIRS@.len(),
        0 <= i < model.files.len(),
        0 <= l < model.actions().len(),
        (model.actions()[l] is SetMtime && model.actions()[l]->SetMtime_0 == model.file_text(i)) || (
        model.actions()[l] is SetMode && model.actions()[l]->SetMode_0 == model.file_text(i)),
    ensures
        model.actions()[l] is SetMtime ==> l == 4 + 3 * i,
        model.actions()[l] is SetMode ==> l == 5 + 3 * i || (model.unreadable == Some(
            Unreadable::File(i as usize),
        ) && l == 9 + 3 * model.files.len() + model.link_names().len() + model.links.len()),
{
    lemma_where_sets(model, l);
    lemma_dir_texts();
    let symlinks = 3 + 3 * model.files.len() + model.link_names().len() + model.links.len();
    if 3 <= l < 3 + 3 * model.files.len() {
        lemma_file_action(model, l);
        lemma_same_file(model, i, (l - 3) / 3);
    } else if symlinks <= l < symlinks + 6 {
        let d = 2 - (l - symlinks) / 2;
        lemma_dir_action(model, d);
        lemma_file_is_no_dir(model, i, d);
    } else {
        match model.unreadable->0 {
            Unreadable::File(index) => {
                lemma_same_file(model, i, index as int);
            },
            Unreadable::Dir(index) => {
                lemma_file_is_no_dir(model, i, index as int);
            },
        }
    }
}

/// The operations that write a tree create each directory of [`DIRS`]. The last modification time of
/// a directory is its own. Its last permission bits are its own, or none if the directory is the
/// unreadable entry of the tree.
pub proof fn law_each_directory_gets_its_metadata(tree: TreeSpec, ops: Vec<TreeOp>, d: int)
    requires
        call_ensures(TreeSpec::write, (&tree,), ops),
        tree.unreadable matches Some(Unreadable::Dir(index)) ==> index < DIRS@.len(),
        0 <= d < DIRS@.len(),
    ensures
        exists|k: int|
            0 <= k < ops.len() && (#[trigger] ops@[k] matches TreeOp::CreateDir { path } && path@
                == DIRS@[d]@),
        exists|k: int|
            {
                &&& 0 <= k < ops.len()
                &&& dates(#[trigger] ops@[k], DIRS@[d]@)
                &&& ops@[k]->mtime == tree.dir_mtimes@[d]
                &&& forall|l: int|
                    0 <= l < ops.len() && dates(#[trigger] ops@[l], DIRS@[d]@) ==> l == k
            },
        exists|k: int|
            {
                &&& 0 <= k < ops.len()
                &&& permits(#[trigger] ops@[k], DIRS@[d]@)
                &&& ops@[k]->mode == if tree.unreadable == Some(Unreadable::Dir(d as usize)) {
                    0
                } else {
                    tree.dir_modes@[d]
                }
                &&& forall|l: int|
                    0 <= l < ops.len() && permits(#[trigger] ops@[l], DIRS@[d]@) ==> l <= k
            },
{
    let model = tree@;
    assert(actions_of(ops@) == model.actions());
    assert forall|l: int| 0 <= l < ops.len() implies model.actions()[l] == #[trigger] ops@[l]@ by {
        assert(actions_of(ops@)[l] == ops@[l]@);
    }
    assert(ops.len() == actions_of(ops@).len());
    lemma_parts(model);
    lemma_dir_texts();
    lemma_dir_action(model, d);
    assert(ops@[d]@ == TreeAction::CreateDir(DIRS@[d]@));
    let symlinks = 3 + 3 * model.files.len() + model.link_names().len() + model.links.len();
    let at = symlinks + 2 * (2 - d);
    assert(dates(ops@[at], DIRS@[d]@));
    assert forall|l: int| 0 <= l < ops.len() && dates(#[trigger] ops@[l], DIRS@[d]@) implies l
        == at by {
        lemma_set_of_dir(model, d, l);
    }
    let m = if tree.unreadable == Some(Unreadable::Dir(d as usize)) {
        symlinks + 6int
    } else {
        at + 1
    };
    assert(ops@[m]@ is SetMode);
    assert(permits(ops@[m], DIRS@[d]@));
    assert forall|l: int| 0 <= l < ops.len() && permits(#[trigger] ops@[l], DIRS@[d]@) implies l
        <= m by {
        lemma_set_of_dir(model, d, l);
    }
}

/// An action that sets something of a directory is one of its directory actions, or the last one.
proof fn lemma_set_of_dir(model: TreeModel, d: int, l: int)
    requires
        model.unreadable matches Some(Unreadable::Dir(index)) ==> index < DIRS@.len(),
        0 <= d < 3,
        0 <= l < model.actions().len(),
        (model.actions()[l] is SetMtime && model.actions()[l]->SetMtime_0 == DIRS@[d]@) || (
        model.actions()[l] is SetMode && model.actions()[l]->SetMode_0 == DIRS@[d]@),
    ensures
        ({
            let symlinks = 3 + 3 * model.files.len() + model.link_names().len()
                + model.links.len();
            &&& model.actions()[l] is SetMtime ==> l == symlinks + 2 * (2 - d)
            &&& model.actions()[l] is SetMode ==> l == symlinks + 2 * (2 - d) + 1 || (
            model.unreadable == Some(Unreadable::Dir(d as usize)) && l == symlinks + 6)
        }),
{
    lemma_where_sets(model, l);
    lemma_dir_texts();
    let symlinks = 3 + 3 * model.files.len() + model.link_names().len() + model.links.len();
    if 3 <= l < 3 + 3 * model.files.len() {
        lemma_file_action(model, l);
        lemma_file_is_no_dir(model, (l - 3) / 3, d);
    } else if symlinks <= l < symlinks + 6 {
        let e = 2 - (l - symlinks) / 2;
        lemma_dir_action(model, e);
        assert(DIRS@[e]@ == DIRS@[d]@);
        assert(e == d);
    } else {
        match model.unreadable->0 {
            Unreadable::File(index) => {
                lemma_file_is_no_dir(model, index as int, d);
            },
            Unreadable::Dir(index) => {
                assert(DIRS@[index as int]@ == DIRS@[d]@);
                assert(index == d);
            },
        }
    }
}

/// The operations that write a tree create each symlink exactly once: the symlink with the index `i`
/// gets the path `l<i>` in its directory, and its own target. They create no other symlinks.
pub proof fn law_each_symlink_is_created_once(tree: TreeSpec, ops: Vec<TreeOp>, i: int, l: int)
    requires
        call_ensures(TreeSpec::write, (&tree,), ops),
        forall|j: int|
            0 <= j < tree.links.len() ==> ((#[trigger] tree.links@[j]).dir matches Location::Dir(d)
                ==> d < DIRS@.len()),
        0 <= i < tree.links.len(),
        0 <= l < ops.len(),
    ensures
        ({
            let path = entry_path(tree.links@[i].dir, seq!['l'] + text::decimal(i as nat));
            exists|k: int|
                {
                    &&& 0 <= k < ops.len()
                    &&& links(#[trigger] ops@[k], path)
                    &&& ops@[k]->target@ == tree.links@[i].target@
                    &&& links(ops@[l], path) ==> l == k
                }
        }),
        ops@[l] is Symlink ==> exists|j: int|
            0 <= j < tree.links.len() && links(
                ops@[l],
                entry_path(
                    (#[trigger] tree.links@[j]).dir,
                    seq!['l'] + text::decimal(j as nat),
                ),
            ),
{
    let model = tree@;
    let path = entry_path(tree.links@[i].dir, seq!['l'] + text::decimal(i as nat));
    assert(actions_of(ops@) == model.actions());
    assert forall|m: int| 0 <= m < ops.len() implies model.actions()[m] == #[trigger] ops@[m]@ by {
        assert(actions_of(ops@)[m] == ops@[m]@);
    }
    assert(ops.len() == actions_of(ops@).len());
    lemma_parts(model);
    let names = 3 + 3 * model.files.len() as int + model.link_names().len();
    reveal_strlit("l");
    assert("l"@ =~= seq!['l']);
    assert(tree.links@[i].dir.is_known());
    lemma_entry_path(tree.links@[i].dir, seq!['l'] + text::decimal(i as nat));
    lemma_name('l', i as nat);
    let k = names + i;
    assert(ops@[k]@ == TreeAction::Symlink(tree.links@[i].target@, path));
    assert(links(ops@[k], path));
    if ops@[l] is Symlink {
        lemma_where_symlinks(model, l);
        let j = l - names;
        assert(tree.links@[j].dir.is_known());
        lemma_entry_path(tree.links@[j].dir, seq!['l'] + text::decimal(j as nat));
        lemma_name('l', j as nat);
        assert(model.actions()[l] == model.create_links()[j]);
        assert(links(
            ops@[l],
            entry_path(tree.links@[j].dir, seq!['l'] + text::decimal(j as nat)),
        ));
        if links(ops@[l], path) {
            lemma_entry_path_identifies(
                tree.links@[i].dir,
                seq!['l'] + text::decimal(i as nat),
                tree.links@[j].dir,
                seq!['l'] + text::decimal(j as nat),
            );
            lemma_names_differ('l', i as nat, j as nat);
        }
    }
}

proof fn lemma_where_symlinks(model: TreeModel, l: int)
    requires
        0 <= l < model.actions().len(),
        model.actions()[l] is Symlink,
    ensures
        ({
            let names = 3 + 3 * model.files.len() + model.link_names().len();
            names <= l < names + model.links.len()
        }),
{
    lemma_parts(model);
    lemma_set_dirs_at(model);
    lemma_set_dirs_makes_nothing(model, 3);
    let files = 3 + 3 * model.files.len() as int;
    let names = files + model.link_names().len();
    let symlinks = names + model.links.len();
    let action = model.actions()[l];
    if l < 3 {
        assert(action == model.create_dirs()[l]);
    } else if l < files {
        lemma_file_action(model, l);
    } else if l < names {
        assert(action == model.link_names()[l - files]);
    } else if symlinks <= l < symlinks + 6 {
        assert(action == model.set_dirs(3)[l - symlinks]);
    } else if symlinks <= l {
        assert(action == model.hide_entry()[l - symlinks - 6]);
    }
}

/// A tree with a second name of a file gives exactly one file a second name: the path `h` in the
/// directory of the name, after the file was written. Another tree gives no file a second name.
pub proof fn law_second_name_is_of_its_file(tree: TreeSpec, ops: Vec<TreeOp>, l: int)
    requires
        call_ensures(TreeSpec::write, (&tree,), ops),
        forall|j: int|
            0 <= j < tree.files.len() ==> ((#[trigger] tree.files@[j]).dir matches Location::Dir(d)
                ==> d < DIRS@.len()),
        tree.hard_link matches Some(link) ==> link.file < tree.files.len() && (
        link.dir matches Location::Dir(d) ==> d < DIRS@.len()),
        0 <= l < ops.len(),
    ensures
        tree.hard_link is None ==> !(ops@[l] is HardLink),
        tree.hard_link is Some ==> {
            let link = tree.hard_link->0;
            let file = entry_path(
                tree.files@[link.file as int].dir,
                seq!['f'] + text::decimal(link.file as nat),
            );
            exists|k: int|
                {
                    &&& 0 <= k < ops.len()
                    &&& #[trigger] ops@[k] is HardLink
                    &&& ops@[k]->HardLink_file@ == file
                    &&& ops@[k]->HardLink_path@ == entry_path(link.dir, seq!['h'])
                    &&& ops@[l] is HardLink ==> l == k
                    &&& writes(ops@[l], file) ==> l < k
                }
        },
{
    let model = tree@;
    assert(actions_of(ops@) == model.actions());
    assert forall|m: int| 0 <= m < ops.len() implies model.actions()[m] == #[trigger] ops@[m]@ by {
        assert(actions_of(ops@)[m] == ops@[m]@);
    }
    assert(ops.len() == actions_of(ops@).len());
    lemma_parts(model);
    lemma_set_dirs_makes_nothing(model, 3);
    let files = 3 + 3 * model.files.len() as int;
    if ops@[l] is HardLink {
        lemma_where_names(model, l);
    }
    if tree.hard_link is Some {
        let link = tree.hard_link->0;
        let i = link.file as int;
        assert(tree.files@[i].dir.is_known());
        lemma_file_path(model, i);
        reveal_strlit("h");
        assert("h"@ =~= seq!['h']);
        assert(link.dir.is_known());
        lemma_entry_path(link.dir, seq!['h']);
        assert(ops@[files]@ is HardLink);
        if ops@[l]@ is WriteFile {
            lemma_where_writes(model, l);
        }
    }
}

proof fn lemma_where_names(model: TreeModel, l: int)
    requires
        0 <= l < model.actions().len(),
        model.actions()[l] is HardLink,
    ensures
        ({
            let files = 3 + 3 * model.files.len();
            files <= l < files + model.link_names().len()
        }),
{
    lemma_parts(model);
    lemma_set_dirs_at(model);
    lemma_set_dirs_makes_nothing(model, 3);
    let files = 3 + 3 * model.files.len() as int;
    let names = files + model.link_names().len();
    let symlinks = names + model.links.len();
    let action = model.actions()[l];
    if l < 3 {
        assert(action == model.create_dirs()[l]);
    } else if l < files {
        lemma_file_action(model, l);
    } else if names <= l < symlinks {
        assert(action == model.create_links()[l - names]);
    } else if symlinks <= l < symlinks + 6 {
        assert(action == model.set_dirs(3)[l - symlinks]);
    } else if symlinks <= l {
        assert(action == model.hide_entry()[l - symlinks - 6]);
    }
}

/// A location is the root or a directory, by one draw of four: the first is the root, and the others
/// are the directories of [`DIRS`] in their order.
pub proof fn law_location_follows_its_draw(a: &mut Rng, draw: usize, b: &mut Rng, r: Location)
    requires
        *old(b) == *old(a),
        call_ensures(Rng::below, (a, 4), draw),
        call_ensures(Location::generate, (b,), r),
    ensures
        draw == 0 ==> r == Location::Root,
        draw > 0 ==> r == Location::Dir((draw - 1) as usize),
        *final(b) == *final(a),
{
    assert(DIRS@.len() == 3);
}

/// A file gets its directory, the class of its length, its length, its seed, its permission bits and
/// its time from the next draws, in this order. One file of eight is empty, four are of up to 4,096
/// bytes, two are of up to 24,095 bytes, and one is of 500,000 bytes or more.
pub proof fn law_file_follows_its_draws(
    a: &mut Rng,
    dir: Location,
    b: &mut Rng,
    class: usize,
    c: &mut Rng,
    bound: usize,
    len: usize,
    d: &mut Rng,
    seed: u64,
    e: &mut Rng,
    mode: u32,
    f: &mut Rng,
    mtime: Time,
    all: &mut Rng,
    r: FileSpec,
)
    requires
        *old(all) == *old(a),
        call_ensures(Location::generate, (a,), dir),
        *old(b) == *final(a),
        call_ensures(Rng::below, (b, 8), class),
        *old(c) == *final(b),
        1 <= class <= 4 ==> bound == 4_096,
        5 <= class <= 6 ==> bound == 20_000,
        class == 7 ==> bound == 200_000,
        call_ensures(Rng::below, (c, bound), len),
        *old(d) == if class == 0 {
            *final(b)
        } else {
            *final(c)
        },
        call_ensures(Rng::next_u64, (d,), seed),
        *old(e) == *final(d),
        call_ensures(Rng::pick::<u32>, (e, &FILE_MODES), mode),
        *old(f) == *final(e),
        call_ensures(Rng::time, (f,), mtime),
        call_ensures(FileSpec::generate, (all,), r),
    ensures
        class < 8,
        r.dir == dir,
        class == 0 ==> r.len == 0,
        1 <= class <= 4 ==> r.len == 1 + len,
        5 <= class <= 6 ==> r.len == 4_096 + len,
        class == 7 ==> r.len == 500_000 + len,
        r.seed == seed,
        r.mode == mode,
        r.mtime == mtime,
        *final(all) == *final(f),
{
    reveal_with_fuel(steps, 3);
}

/// A symlink gets its directory and its target from the next two draws.
pub proof fn law_symlink_follows_its_draws(
    a: &mut Rng,
    dir: Location,
    b: &mut Rng,
    target: &'static str,
    all: &mut Rng,
    r: LinkSpec,
)
    requires
        *old(all) == *old(a),
        call_ensures(Location::generate, (a,), dir),
        *old(b) == *final(a),
        call_ensures(Rng::pick::<&'static str>, (b, &LINK_TARGETS), target),
        call_ensures(LinkSpec::generate, (all,), r),
    ensures
        r.dir == dir,
        r.target == target,
        *final(all) == *final(b),
{
    reveal_with_fuel(steps, 3);
}

/// A tree has one file more than the next draw of eight, and its first file is the next file. A tree
/// that may not have an unreadable entry has none.
pub proof fn law_tree_follows_its_draws(
    a: &mut Rng,
    count: usize,
    b: &mut Rng,
    first: FileSpec,
    all: &mut Rng,
    allow_unreadable: bool,
    r: TreeSpec,
)
    requires
        *old(all) == *old(a),
        call_ensures(Rng::below, (a, 8), count),
        *old(b) == *final(a),
        call_ensures(FileSpec::generate, (b,), first),
        call_ensures(TreeSpec::generate, (all, allow_unreadable), r),
    ensures
        r.files.len() == count + 1,
        r.files@[0] == first,
        !allow_unreadable ==> r.unreadable is None,
{
    let s = rng::rng_step(old(all).state);
    let n = rng::rng_below(old(all).state, 8) + 1;
    lemma_generated_files(s, n);
    assert(r.files@ == generated_files(s, n).0);
}

proof fn lemma_generated_files(s: u64, n: nat)
    requires
        n > 0,
    ensures
        generated_files(s, n).0.len() == n,
        generated_files(s, n).0[0] == FileSpec::generated(s).0,
    decreases n,
{
    reveal_with_fuel(generated_files, 2);
    if n > 1 {
        lemma_generated_files(s, (n - 1) as nat);
    }
}

/// Whether a generator with the state `states[i]` gives the file `files[i]`, and has the state
/// `states[i + 1]` after it, for each `i`.
pub open spec fn follow_files(states: Seq<u64>, files: Seq<FileSpec>) -> bool {
    &&& states.len() == files.len() + 1
    &&& forall|i: int|
        0 <= i < files.len() ==> (#[trigger] files[i], states[i + 1]) == FileSpec::generated(states[i])
}

/// Whether a generator with the state `states[i]` gives the symlink `links[i]`, and has the state
/// `states[i + 1]` after it, for each `i`.
pub open spec fn follow_links(states: Seq<u64>, links: Seq<LinkSpec>) -> bool {
    &&& states.len() == links.len() + 1
    &&& forall|i: int|
        0 <= i < links.len() ==> (#[trigger] links[i], states[i + 1]) == LinkSpec::generated(states[i])
}

proof fn lemma_follow_files(states: Seq<u64>, files: Seq<FileSpec>, n: nat)
    requires
        follow_files(states, files),
        n <= files.len(),
    ensures
        generated_files(states[0], n) == (files.take(n as int), states[n as int]),
    decreases n,
{
    if n == 0 {
        assert(files.take(0) =~= Seq::empty());
    } else {
        let last = n - 1;
        lemma_follow_files(states, files, last as nat);
        assert((files[last], states[last + 1]) == FileSpec::generated(states[last]));
        assert(files.take(last).push(files[last]) =~= files.take(n as int));
    }
}

proof fn lemma_follow_links(states: Seq<u64>, links: Seq<LinkSpec>, n: nat)
    requires
        follow_links(states, links),
        n <= links.len(),
    ensures
        generated_links(states[0], n) == (links.take(n as int), states[n as int]),
    decreases n,
{
    if n == 0 {
        assert(links.take(0) =~= Seq::empty());
    } else {
        let last = n - 1;
        lemma_follow_links(states, links, last as nat);
        assert((links[last], states[last + 1]) == LinkSpec::generated(states[last]));
        assert(links.take(last).push(links[last]) =~= links.take(n as int));
    }
}

/// A tree has the files that follow a draw of eight, one more than the draw. The symlinks follow a
/// draw of three, and are as many as the draw. One tree of four has a second name, with the next
/// location, for the file of the draw after it.
pub proof fn law_tree_has_its_entries_by_draws(
    a: &mut Rng,
    more: usize,
    file_states: Seq<u64>,
    files: Seq<FileSpec>,
    b: &mut Rng,
    count: usize,
    link_states: Seq<u64>,
    links: Seq<LinkSpec>,
    c: &mut Rng,
    second: bool,
    d: &mut Rng,
    dir: Location,
    e: &mut Rng,
    file: usize,
    all: &mut Rng,
    allow_unreadable: bool,
    r: TreeSpec,
)
    requires
        *old(all) == *old(a),
        call_ensures(Rng::below, (a, 8), more),
        follow_files(file_states, files),
        files.len() == more + 1,
        file_states[0] == final(a).state,
        old(b).state == file_states.last(),
        call_ensures(Rng::below, (b, 3), count),
        follow_links(link_states, links),
        links.len() == count,
        link_states[0] == final(b).state,
        old(c).state == link_states.last(),
        call_ensures(Rng::chance, (c, 1, 4), second),
        *old(d) == *final(c),
        call_ensures(Location::generate, (d,), dir),
        *old(e) == *final(d),
        call_ensures(Rng::below, (e, (more + 1) as usize), file),
        call_ensures(TreeSpec::generate, (all, allow_unreadable), r),
    ensures
        r.files@ == files,
        r.links@ == links,
        r.hard_link is Some <==> second,
        r.hard_link matches Some(link) ==> link.dir == dir && link.file == file,
{
    lemma_follow_files(file_states, files, files.len());
    lemma_follow_links(link_states, links, links.len());
    assert(files.take(files.len() as int) =~= files);
    assert(links.take(links.len() as int) =~= links);
    assert(r@ == TreeModel::generated(old(all).state, allow_unreadable).0);
}

/// After the files, the symlinks and the second name, a tree draws the permission bits of the three
/// directories, then their times, and then, if it may have one, its unreadable entry. One tree of six
/// has one. Half of them are files, and the others are directories, with the index of the next draw.
pub proof fn law_tree_has_its_metadata_by_draws(
    a: &mut Rng,
    more: usize,
    file_states: Seq<u64>,
    files: Seq<FileSpec>,
    b: &mut Rng,
    count: usize,
    link_states: Seq<u64>,
    links: Seq<LinkSpec>,
    second: &mut Rng,
    has_second: bool,
    dir: &mut Rng,
    location: Location,
    file: &mut Rng,
    of: usize,
    allow_unreadable: bool,
    mode_0: &mut Rng,
    mode_1: &mut Rng,
    mode_2: &mut Rng,
    modes: Seq<u32>,
    time_0: &mut Rng,
    time_1: &mut Rng,
    time_2: &mut Rng,
    times: Seq<Time>,
    c: &mut Rng,
    hidden: bool,
    d: &mut Rng,
    is_file: bool,
    e: &mut Rng,
    index: usize,
    all: &mut Rng,
    r: TreeSpec,
)
    requires
        call_ensures(TreeSpec::generate, (all, allow_unreadable), r),
        *old(all) == *old(a),
        call_ensures(Rng::below, (a, 8), more),
        follow_files(file_states, files),
        files.len() == more + 1,
        file_states[0] == final(a).state,
        old(b).state == file_states.last(),
        call_ensures(Rng::below, (b, 3), count),
        follow_links(link_states, links),
        links.len() == count,
        link_states[0] == final(b).state,
        old(second).state == link_states.last(),
        call_ensures(Rng::chance, (second, 1, 4), has_second),
        *old(dir) == *final(second),
        call_ensures(Location::generate, (dir,), location),
        *old(file) == *final(dir),
        call_ensures(Rng::below, (file, files.len() as usize), of),
        *old(mode_0) == if has_second {
            *final(file)
        } else {
            *final(second)
        },
        modes.len() == 3,
        times.len() == 3,
        call_ensures(Rng::pick::<u32>, (mode_0, &DIR_MODES), modes[0]),
        *old(mode_1) == *final(mode_0),
        call_ensures(Rng::pick::<u32>, (mode_1, &DIR_MODES), modes[1]),
        *old(mode_2) == *final(mode_1),
        call_ensures(Rng::pick::<u32>, (mode_2, &DIR_MODES), modes[2]),
        *old(time_0) == *final(mode_2),
        call_ensures(Rng::time, (time_0,), times[0]),
        *old(time_1) == *final(time_0),
        call_ensures(Rng::time, (time_1,), times[1]),
        *old(time_2) == *final(time_1),
        call_ensures(Rng::time, (time_2,), times[2]),
        *old(c) == *final(time_2),
        call_ensures(Rng::chance, (c, 1, 6), hidden),
        *old(d) == *final(c),
        call_ensures(Rng::chance, (d, 1, 2), is_file),
        *old(e) == *final(d),
        call_ensures(
            Rng::below,
            (
                e,
                if is_file {
                    files.len() as usize
                } else {
                    3
                },
            ),
            index,
        ),
    ensures
        r.dir_modes@ == modes,
        r.dir_mtimes@ == times,
        r.unreadable == if allow_unreadable && hidden {
            Some(
                if is_file {
                    Unreadable::File(index)
                } else {
                    Unreadable::Dir(index)
                },
            )
        } else {
            None
        },
        *final(all) == if !allow_unreadable {
            *final(time_2)
        } else if hidden {
            *final(e)
        } else {
            *final(c)
        },
{
    lemma_follow_files(file_states, files, files.len());
    lemma_follow_links(link_states, links, links.len());
    assert(files.take(files.len() as int) =~= files);
    assert(links.take(links.len() as int) =~= links);
    reveal_with_fuel(steps, 8);
    let s = old(all).state;
    let model = TreeModel::generated(s, allow_unreadable).0;
    assert(r@ == model);
    assert(r.dir_modes@ == model.dir_modes);
    assert(r.dir_mtimes@ == model.dir_mtimes);
    assert(DIRS@.len() == 3);
    let s3 = old(mode_0).state;
    assert(model.dir_modes == generated_dir_modes(s3));
    let s4 = old(time_0).state;
    assert(s4 == steps(s3, 3));
    assert(model.dir_mtimes == generated_dir_mtimes(s4));
    assert(old(c).state == steps(s4, 6));
    assert(r.dir_modes@ =~= modes);
    assert(r.dir_mtimes@ =~= times);
}

} // verus!
