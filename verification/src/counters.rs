//! Counters of what a backup reads, and a source whose reads are counted.

use vstd::prelude::*;

use crate::archiver::SourceEntry;
use crate::rng::{self, content};
use crate::text::{self, owned, push_decimal_padded};

verus! {

/// The type of a progress bar.
#[derive(Debug, Clone, Copy, PartialEq, Eq, Structural)]
pub enum ProgressType {
    /// A spinner.
    Spinner,
    /// A counter.
    Counter,
    /// A count of bytes.
    Bytes,
}

/// Counts the bytes of each progress of the type [`ProgressType::Bytes`].
///
/// Each progress is hidden, so a backup does not scan the size of its source.
#[derive(Debug, Clone, Copy)]
pub struct ByteCounter {
    count: u64,
}

impl View for ByteCounter {
    type V = u64;

    closed spec fn view(&self) -> u64 {
        self.count
    }
}

impl Default for ByteCounter {
    fn default() -> (r: Self)
        ensures
            r@ == 0,
    {
        ByteCounter { count: 0 }
    }
}

impl ByteCounter {
    /// Gives the number of bytes that the progress bars counted.
    pub fn bytes(&self) -> (r: u64)
        ensures
            r == self@,
    {
        self.count
    }

    /// Tells if a progress of the type `progress_type` counts.
    pub fn progress(progress_type: ProgressType) -> (r: bool)
        ensures
            r == (progress_type is Bytes),
    {
        match progress_type {
            ProgressType::Bytes => true,
            ProgressType::Spinner | ProgressType::Counter => false,
        }
    }

    /// Adds the increment `inc` of a progress. The count starts again at 0 after its maximum.
    pub fn inc(&mut self, inc: u64)
        ensures
            final(self)@ == old(self)@.wrapping_add(inc),
    {
        self.count = self.count.wrapping_add(inc);
    }
}

/// Counts the files that a backup reads at the same time.
///
/// A read of a file is live from `open` until the reader closes.
#[derive(Debug)]
pub struct ReadCounter {
    live: usize,
    peak: usize,
    opened: usize,
}

/// The counts of a [`ReadCounter`].
pub ghost struct ReadCounts {
    /// The number of files that are open now.
    pub live: nat,
    /// The maximum number of files that were open at the same time.
    pub peak: nat,
    /// The number of files that were opened.
    pub opened: nat,
}

impl ReadCounts {
    /// The counts before any read.
    pub open spec fn zero() -> ReadCounts {
        ReadCounts { live: 0, peak: 0, opened: 0 }
    }

    /// The counts after one more file was opened.
    pub open spec fn after_open(self) -> ReadCounts {
        ReadCounts {
            live: self.live + 1,
            peak: if self.live + 1 > self.peak {
                self.live + 1
            } else {
                self.peak
            },
            opened: self.opened + 1,
        }
    }

    /// The counts after one file was closed.
    pub open spec fn after_close(self) -> ReadCounts {
        ReadCounts { live: (self.live - 1) as nat, ..self }
    }

    /// Whether no more files are open than were open at the same time, and no more files were open
    /// at the same time than were opened.
    pub open spec fn are_ordered(self) -> bool {
        self.live <= self.peak <= self.opened
    }
}

impl View for ReadCounter {
    type V = ReadCounts;

    closed spec fn view(&self) -> ReadCounts {
        ReadCounts {
            live: self.live as nat,
            peak: self.peak as nat,
            opened: self.opened as nat,
        }
    }
}

impl Default for ReadCounter {
    fn default() -> (r: Self)
        ensures
            r@ == ReadCounts::zero(),
    {
        ReadCounter { live: 0, peak: 0, opened: 0 }
    }
}

impl ReadCounter {
    #[verifier::type_invariant]
    spec fn well_formed(self) -> bool {
        self.live <= self.peak <= self.opened
    }

    /// Gives the number of files that were opened.
    pub fn opened(&self) -> (r: usize)
        ensures
            r == self@.opened,
            self@.are_ordered(),
    {
        proof {
            use_type_invariant(self);
        }
        self.opened
    }

    /// Gives the maximum number of files that were open at the same time.
    pub fn peak(&self) -> (r: usize)
        ensures
            r == self@.peak,
            self@.are_ordered(),
    {
        proof {
            use_type_invariant(self);
        }
        self.peak
    }

    /// Gives the number of files that are open now.
    pub fn live(&self) -> (r: usize)
        ensures
            r == self@.live,
            self@.are_ordered(),
    {
        proof {
            use_type_invariant(self);
        }
        self.live
    }

    /// Counts a file that was opened.
    fn open(&mut self)
        requires
            old(self)@.opened < usize::MAX,
        ensures
            final(self)@ == old(self)@.after_open(),
    {
        proof {
            use_type_invariant(&*self);
        }
        let now: usize = self.live + 1;
        let peak: usize = if now > self.peak {
            now
        } else {
            self.peak
        };
        *self = ReadCounter { live: now, peak, opened: self.opened + 1 };
    }

    /// Counts a file that was closed.
    fn close(&mut self)
        requires
            old(self)@.live > 0,
        ensures
            final(self)@ == old(self)@.after_close(),
    {
        proof {
            use_type_invariant(&*self);
        }
        *self = ReadCounter { live: self.live - 1, peak: self.peak, opened: self.opened };
    }
}

/// The time in milliseconds that the first read of each file of [`CountingSource`] waits, so that
/// the reads of different threads overlap.
pub const READ_PAUSE: u64 = 10;

/// Opens a file of [`CountingSource`].
#[derive(Debug)]
pub struct CountingOpen {
    content: Vec<u8>,
}

impl View for CountingOpen {
    type V = Seq<u8>;

    closed spec fn view(&self) -> Seq<u8> {
        self.content@
    }
}

impl CountingOpen {
    /// Opens the file, and counts it in `counter`.
    pub fn open(self, counter: &mut ReadCounter) -> (r: CountingReader)
        requires
            old(counter)@.opened < usize::MAX,
        ensures
            final(counter)@ == old(counter)@.after_open(),
            r.rest() == self@,
            !r.was_read(),
    {
        counter.open();
        let r = CountingReader { content: self.content, position: 0, paused: false };
        assert(r.content@.skip(0) =~= r.content@);
        r
    }
}

/// Reads a file of [`CountingSource`]. The close of the reader ends the read of the file.
#[derive(Debug)]
pub struct CountingReader {
    content: Vec<u8>,
    position: usize,
    paused: bool,
}

impl CountingReader {
    #[verifier::type_invariant]
    spec fn well_formed(self) -> bool {
        self.position <= self.content@.len()
    }

    /// The bytes that the reader has not given.
    pub closed spec fn rest(&self) -> Seq<u8> {
        self.content@.skip(self.position as int)
    }

    /// Whether there was a read before.
    pub closed spec fn was_read(&self) -> bool {
        self.paused
    }

    /// Reads at most `len` bytes.
    ///
    /// # Returns
    ///
    /// The bytes, and whether the caller waits [`READ_PAUSE`] before it gives them on: the first
    /// read of a file waits.
    pub fn read(&mut self, len: usize) -> (r: (Vec<u8>, bool))
        ensures
            r.1 == !old(self).was_read(),
            final(self).was_read(),
            r.0@ == old(self).rest().take(
                if len <= old(self).rest().len() {
                    len as int
                } else {
                    old(self).rest().len() as int
                },
            ),
            final(self).rest() == old(self).rest().skip(r.0@.len() as int),
    {
        proof {
            use_type_invariant(&*self);
        }
        let first = !self.paused;
        let left: usize = self.content.len() - self.position;
        let n: usize = if len <= left {
            len
        } else {
            left
        };
        let start: usize = self.position;
        let mut out: Vec<u8> = Vec::new();
        for i in 0..n
            invariant
                start + n <= self.content.len(),
                self.content@ == old(self).content@,
                self.position == start,
                out@ == self.content@.subrange(start as int, start + i),
        {
            out.push(self.content[start + i]);
            assert(out@ =~= self.content@.subrange(start as int, start + i + 1));
        }
        assert(out@ =~= old(self).rest().take(n as int));
        self.position = start + n;
        self.paused = true;
        assert(self.rest() =~= old(self).rest().skip(n as int));
        (out, first)
    }

    /// Ends the read of the file, and counts it in `counter`.
    pub fn close(self, counter: &mut ReadCounter)
        requires
            old(counter)@.live > 0,
        ensures
            final(counter)@ == old(counter)@.after_close(),
    {
        counter.close();
    }
}

/// A file of [`CountingSource`].
#[derive(Debug)]
pub struct CountingFile {
    /// The name of the file.
    pub name: String,
    /// The size of the file.
    pub size: u64,
    /// Opens the file.
    pub open: CountingOpen,
}

/// The number of bytes of each file of [`CountingSource`].
pub const FILE_SIZE: usize = 1_000;

/// The directory of the files of [`CountingSource`].
pub const SOURCE_DIR: &'static str = "source";

/// The name of the file with the index `index` of [`CountingSource`].
pub open spec fn file_name(index: nat) -> Seq<char> {
    "f"@ + text::decimal_padded(index, 3)
}

/// Whether `entry` is the file with the index `index` of [`CountingSource`].
pub open spec fn is_counting_file(entry: SourceEntry<CountingFile>, index: u64) -> bool {
    &&& text::texts(entry.path@) == seq![SOURCE_DIR@, file_name(index as nat)]
    &&& !entry.is_dir
    &&& entry.node.name@ == file_name(index as nat)
    &&& entry.node.size == FILE_SIZE
    &&& entry.node.open@ == rng::content_of(index, FILE_SIZE as nat)
}

/// A source of `count` files below the path `source`, with other content in each file.
///
/// Each file has a fixed size and no times, so two backups of the source give the same tree.
#[derive(Debug)]
pub struct CountingSource {
    /// The number of files.
    pub count: u64,
    /// The counter of the reads of this source.
    pub counter: ReadCounter,
}

impl CountingSource {
    /// Creates a source of `count` files.
    pub fn new(count: u64) -> (r: Self)
        ensures
            r.count == count,
            r.counter@ == ReadCounts::zero(),
    {
        CountingSource { count, counter: ReadCounter::default() }
    }

    /// Gives the counter of the reads of this source.
    pub fn counter(&self) -> (r: &ReadCounter)
        ensures
            *r == self.counter,
    {
        &self.counter
    }

    /// Gives the total size of the source. The source does not tell it.
    pub fn size(&self) -> (r: Option<u64>)
        ensures
            r is None,
    {
        None
    }

    /// Gives the file with the index `index`.
    pub fn entry(index: u64) -> (r: SourceEntry<CountingFile>)
        ensures
            is_counting_file(r, index),
    {
        let mut name = owned("f");
        push_decimal_padded(&mut name, index, 3);
        let mut path: Vec<String> = Vec::new();
        path.push(owned(SOURCE_DIR));
        path.push(owned(name.as_str()));
        assert(text::texts(path@) =~= seq![SOURCE_DIR@, file_name(index as nat)]);
        SourceEntry {
            path,
            is_dir: false,
            node: CountingFile {
                name,
                size: FILE_SIZE as u64,
                open: CountingOpen { content: content(index, FILE_SIZE) },
            },
        }
    }

    /// Gives the files of the source.
    pub fn entries(&self) -> (r: Vec<SourceEntry<CountingFile>>)
        requires
            self.count <= usize::MAX,
        ensures
            r.len() == self.count,
            forall|i: int| 0 <= i < r.len() ==> is_counting_file(#[trigger] r@[i], i as u64),
    {
        let mut files: Vec<SourceEntry<CountingFile>> = Vec::new();
        for index in 0..self.count
            invariant
                files.len() == index,
                self.count <= usize::MAX,
                forall|i: int|
                    0 <= i < index ==> is_counting_file(#[trigger] files@[i], i as u64),
        {
            files.push(Self::entry(index));
        }
        files
    }
}

/// Each file of a source has other content.
pub proof fn law_files_differ(
    a: SourceEntry<CountingFile>,
    i: u64,
    b: SourceEntry<CountingFile>,
    j: u64,
)
    requires
        is_counting_file(a, i),
        is_counting_file(b, j),
        i != j,
        i < rng::DISTINCT_SEEDS,
        j < rng::DISTINCT_SEEDS,
    ensures
        a.node.open@ != b.node.open@,
{
    rng::law_small_seeds_differ(i, j);
    rng::law_contents_differ(i, j, FILE_SIZE as nat);
}

/// An open and a close leave the number of open files, and the counts stay ordered.
pub proof fn law_open_then_close(counts: ReadCounts)
    requires
        counts.are_ordered(),
    ensures
        counts.after_open().are_ordered(),
        counts.after_open().after_close().are_ordered(),
        counts.after_open().after_close().live == counts.live,
        counts.after_open().after_close().opened == counts.opened + 1,
        counts.after_open().peak >= counts.live + 1,
{
}

/// An opened file counts as open and as opened. The maximum of files that were open at the same time
/// is at least the number of files that are open now, and it grows only to this number. A closed
/// file is not open any more, and changes nothing else.
pub proof fn law_counter_follows_the_files(
    file: CountingOpen,
    counter: &mut ReadCounter,
    reader: CountingReader,
    other: CountingReader,
    later: &mut ReadCounter,
)
    requires
        call_ensures(CountingOpen::open, (file, counter), reader),
        call_ensures(CountingReader::close, (other, later), ()),
        old(later)@.live > 0,
        old(counter)@.live <= old(counter)@.peak,
    ensures
        final(counter)@.live == old(counter)@.live + 1,
        final(counter)@.opened == old(counter)@.opened + 1,
        final(counter)@.peak >= final(counter)@.live,
        final(counter)@.peak >= old(counter)@.peak,
        final(counter)@.peak == old(counter)@.peak || final(counter)@.peak == final(counter)@.live,
        final(later)@.live + 1 == old(later)@.live,
        final(later)@.opened == old(later)@.opened,
        final(later)@.peak == old(later)@.peak,
        reader.rest() == file@,
{
}

/// What reads of a file gave, one after the other, and what is left, are together the content of the
/// file. A read gives at most as many bytes as asked, and nothing only if it asked for nothing or
/// nothing is left. Only the first read of a file waits.
pub proof fn law_reads_give_the_content(
    reader: &mut CountingReader,
    len: usize,
    first: (Vec<u8>, bool),
    next: &mut CountingReader,
    more: usize,
    second: (Vec<u8>, bool),
)
    requires
        call_ensures(CountingReader::read, (reader, len), first),
        *old(next) == *final(reader),
        call_ensures(CountingReader::read, (next, more), second),
    ensures
        old(reader).rest() == first.0@ + second.0@ + final(next).rest(),
        first.0@.len() <= len,
        first.0@.len() == 0 ==> len == 0 || old(reader).rest().len() == 0,
        first.0@.len() < len ==> final(reader).rest().len() == 0,
        first.1 == !old(reader).was_read(),
        !second.1,
{
    let start = old(reader).rest();
    let rest = final(reader).rest();
    assert(start =~= first.0@ + rest);
    assert(rest =~= second.0@ + final(next).rest());
    assert(start =~= first.0@ + second.0@ + final(next).rest());
}

/// A count of bytes is the sum of its increments, while the sum fits. Only a progress of bytes counts.
pub proof fn law_bytes_add_up(
    counter: &mut ByteCounter,
    inc: u64,
    progress: ProgressType,
    counts: bool,
)
    requires
        call_ensures(ByteCounter::inc, (counter, inc), ()),
        call_ensures(ByteCounter::progress, (progress,), counts),
    ensures
        old(counter)@ + inc <= u64::MAX ==> final(counter)@ == old(counter)@ + inc,
        old(counter)@ + inc > u64::MAX ==> final(counter)@ == old(counter)@ + inc - u64::MAX - 1,
        counts <==> progress == ProgressType::Bytes,
{
}

/// A file of a source is no directory, its path is its name below the directory of the source, and
/// its size is the length of its content, which is the content of its index as the seed. Two files
/// have different names.
pub proof fn law_source_files(
    i: u64,
    a: SourceEntry<CountingFile>,
    j: u64,
    b: SourceEntry<CountingFile>,
    data: Vec<u8>,
)
    requires
        call_ensures(CountingSource::entry, (i,), a),
        call_ensures(CountingSource::entry, (j,), b),
        call_ensures(content, (i, FILE_SIZE), data),
    ensures
        !a.is_dir,
        a.path.len() == 2,
        a.path@[0]@ == SOURCE_DIR@,
        a.path@[1]@ == a.node.name@,
        a.node.open@ == data@,
        a.node.size == a.node.open@.len(),
        i != j ==> a.node.name@ != b.node.name@,
{
    let parts = text::texts(a.path@);
    assert(parts.len() == a.path.len());
    assert(parts[0] == a.path@[0]@);
    assert(parts[1] == a.path@[1]@);
    if a.node.name@ == b.node.name@ {
        reveal_strlit("f");
        let (x, y) = (text::decimal_padded(i as nat, 3), text::decimal_padded(j as nat, 3));
        assert(a.node.name@.skip(1) =~= x);
        assert(b.node.name@.skip(1) =~= y);
        text::law_padding_adds_zeros(i as nat, 3);
        text::law_padding_adds_zeros(j as nat, 3);
    }
}

/// A source has as many files as asked, each with its own index, and counts no read before its first
/// file is opened. It does not tell its size.
pub proof fn law_source_has_each_file(
    count: u64,
    source: CountingSource,
    files: Vec<SourceEntry<CountingFile>>,
    size: Option<u64>,
    i: u64,
    file: SourceEntry<CountingFile>,
)
    requires
        call_ensures(CountingSource::new, (count,), source),
        call_ensures(CountingSource::entries, (&source,), files),
        call_ensures(CountingSource::size, (&source,), size),
        call_ensures(CountingSource::entry, (i,), file),
        i < count,
    ensures
        files.len() == count,
        files@[i as int].node.name@ == file.node.name@,
        files@[i as int].node.open@ == file.node.open@,
        source.counter@.live == 0,
        source.counter@.peak == 0,
        source.counter@.opened == 0,
        size is None,
{
    assert(is_counting_file(files@[i as int], i));
}

} // verus!
