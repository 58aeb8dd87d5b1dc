//! Copying only the parts of a file that hold data, so that a sparse file
//! stays sparse.

use vstd::prelude::*;

use crate::fsops::local::{at, located};
use crate::fsops::{counted, TransferProgress, TransferProgressSnapshot};
use crate::path::PathBuf;

verus! {

/// How many bytes are read at a time.
pub const BUFFER_BYTES: u64 = 1024 * 1024;

/// What looking for data or for a hole gave.
#[derive(Clone, Copy, Debug)]
pub enum Seek {
    At(u64),
    /// There is none.
    PastEnd,
    /// The filesystem could not say.
    Failed,
}

/// What copying the data of a file wants next.
#[derive(Debug)]
pub enum SparseStep {
    /// The file has no holes worth preserving: copy it plainly.
    Plain,
    /// Look for the first data at or after an offset.
    SeekData(DataWanted),
    /// Look for the first hole at or after an offset.
    SeekHole(HoleWanted),
    /// Read and write some bytes.
    Copy(ChunkWanted),
    /// Give the copy its length. Everything is copied.
    Finish(SizeWanted),
    Failed(String),
}

/// What copying some bytes gave.
#[derive(Clone, Copy, Debug)]
pub enum ChunkOutcome {
    /// One of the files could not be moved to where the bytes begin.
    Unseekable,
    Unread,
    Unwritten,
    Copied,
}

/// The copy waits to be given its length.
#[derive(Debug)]
pub struct SizeWanted {
    pub source: PathBuf,
    pub length: u64,
}

/// The copy waits for where data begins.
#[derive(Debug)]
pub struct DataWanted {
    source: PathBuf,
    length: u64,
    cursor: u64,
    /// Whether this finds out if there are holes at all.
    probing: bool,
}

/// The copy waits for where data ends.
#[derive(Debug)]
pub struct HoleWanted {
    source: PathBuf,
    length: u64,
    data: u64,
    probing: bool,
}

/// The copy waits for some bytes to be copied.
#[derive(Debug)]
pub struct ChunkWanted {
    source: PathBuf,
    length: u64,
    offset: u64,
    end: u64,
    hole: u64,
}

impl DataWanted {
    pub closed spec fn file(self) -> Seq<u8> {
        self.source.text()
    }

    pub closed spec fn size(self) -> u64 {
        self.length
    }

    pub closed spec fn from(self) -> u64 {
        self.cursor
    }

    pub closed spec fn first(self) -> bool {
        self.probing
    }

    #[verifier::type_invariant]
    spec fn well_formed(self) -> bool {
        self.cursor < self.length
    }

    /// Whether this is where to look for data from.
    pub open spec fn looks_from(self, offset: u64) -> bool {
        offset == self.from()
    }

    /// Where to look for data from.
    pub fn offset(&self) -> (offset: u64)
        ensures
            self.looks_from(offset),
    {
        self.cursor
    }
}

impl HoleWanted {
    pub closed spec fn file(self) -> Seq<u8> {
        self.source.text()
    }

    pub closed spec fn size(self) -> u64 {
        self.length
    }

    pub closed spec fn from(self) -> u64 {
        self.data
    }

    pub closed spec fn first(self) -> bool {
        self.probing
    }

    #[verifier::type_invariant]
    spec fn well_formed(self) -> bool {
        0 < self.length && (!self.probing ==> self.data < self.length)
    }

    /// Whether this is where to look for a hole from.
    pub open spec fn looks_from(self, offset: u64) -> bool {
        offset == self.from()
    }

    /// Where to look for a hole from.
    pub fn offset(&self) -> (offset: u64)
        ensures
            self.looks_from(offset),
    {
        self.data
    }
}

impl ChunkWanted {
    pub closed spec fn file(self) -> Seq<u8> {
        self.source.text()
    }

    pub closed spec fn size(self) -> u64 {
        self.length
    }

    /// Where the bytes to copy begin.
    pub closed spec fn start(self) -> u64 {
        self.offset
    }

    /// Where the bytes to copy end.
    pub closed spec fn stop(self) -> u64 {
        self.end
    }

    /// Where the data ends.
    pub closed spec fn until(self) -> u64 {
        self.hole
    }

    #[verifier::type_invariant]
    spec fn well_formed(self) -> bool {
        self.offset < self.end <= self.hole <= self.length && self.end - self.offset
            <= BUFFER_BYTES
    }

    /// Whether these are the bytes to copy.
    pub open spec fn covers(self, range: (u64, u64)) -> bool {
        &&& range.0 == self.start()
        &&& range.1 == self.stop() - self.start()
        &&& 0 < range.1 <= BUFFER_BYTES
        &&& range.0 + range.1 <= self.size()
    }

    /// The bytes to copy: where they begin and how many they are.
    pub fn range(&self) -> (range: (u64, u64))
        ensures
            self.covers(range),
    {
        proof {
            use_type_invariant(self);
        }
        (self.offset, self.end - self.offset)
    }
}

/// Why the data of a file could not be found.
pub open spec fn extents_unknown(source: Seq<u8>) -> Seq<char> {
    located("Could not inspect sparse extents in"@, source)
}

/// Whether all that is left is to give the copy its length.
pub open spec fn only_sized(source: Seq<u8>, length: u64, step: SparseStep) -> bool {
    step matches SparseStep::Finish(wanted) && wanted.source.text() == source && wanted.length == length
}

/// How copying a file extent by extent begins.
pub open spec fn begins(source: Seq<u8>, length: Option<u64>, step: SparseStep) -> bool {
    match length {
        None => step matches SparseStep::Failed(message) && message@ == located(
            "Could not inspect"@,
            source,
        ),
        Some(length) => if length == 0 {
            step is Plain
        } else {
            step matches SparseStep::SeekData(wanted) && wanted.file() == source && wanted.size()
                == length && wanted.from() == 0 && wanted.first()
        },
    }
}

/// Begins to copy a file extent by extent. `length` is how many bytes it has,
/// where that could be read.
pub fn try_copy_sparse(source: &PathBuf, length: Option<u64>) -> (step: SparseStep)
    ensures
        begins(source.text(), length, step),
{
    let length: u64 = match length {
        None => {
            return SparseStep::Failed(at("Could not inspect", source));
        },
        Some(length) => length,
    };
    if length == 0 {
        return SparseStep::Plain;
    }
    SparseStep::SeekData(
        DataWanted { source: source.clone(), length, cursor: 0, probing: true },
    )
}

impl DataWanted {
    /// What follows from where data begins.
    pub open spec fn follows(self, data: Seek, step: SparseStep) -> bool {
        match data {
            Seek::PastEnd => only_sized(self.file(), self.size(), step),
            Seek::Failed => if self.first() {
                step is Plain
            } else {
                step matches SparseStep::Failed(message) && message@ == extents_unknown(self.file())
            },
            Seek::At(offset) => if self.first() || offset < self.size() {
                step matches SparseStep::SeekHole(wanted) && wanted.file() == self.file()
                    && wanted.size() == self.size() && wanted.from() == offset && wanted.first()
                    == self.first()
            } else {
                only_sized(self.file(), self.size(), step)
            },
        }
    }

    /// Where data begins.
    pub fn found(self, data: Seek) -> (step: SparseStep)
        ensures
            self.follows(data, step),
    {
        proof {
            use_type_invariant(&self);
        }
        let DataWanted { source, length, probing, .. } = self;
        match data {
            // Nothing but a hole is left.
            Seek::PastEnd => SparseStep::Finish(SizeWanted { source, length }),
            Seek::Failed => if probing {
                SparseStep::Plain
            } else {
                SparseStep::Failed(at("Could not inspect sparse extents in", &source))
            },
            Seek::At(offset) => if probing || offset < length {
                SparseStep::SeekHole(HoleWanted { source, length, data: offset, probing })
            } else {
                SparseStep::Finish(SizeWanted { source, length })
            },
        }
    }
}

/// What comes after everything before `cursor` is copied.
pub open spec fn goes_on(
    source: Seq<u8>,
    length: u64,
    cursor: u64,
    cancelled: bool,
    step: SparseStep,
) -> bool {
    if cursor >= length {
        only_sized(source, length, step)
    } else if cancelled {
        step matches SparseStep::Failed(message) && message@ == "Operation cancelled"@
    } else {
        step matches SparseStep::SeekData(wanted) && wanted.file() == source && wanted.size()
            == length && wanted.from() == cursor && !wanted.first()
    }
}

fn go_on(source: PathBuf, length: u64, cursor: u64, cancelled: bool) -> (step: SparseStep)
    ensures
        goes_on(source.text(), length, cursor, cancelled, step),
{
    if cursor >= length {
        SparseStep::Finish(SizeWanted { source, length })
    } else if cancelled {
        SparseStep::Failed("Operation cancelled".to_owned())
    } else {
        SparseStep::SeekData(DataWanted { source, length, cursor, probing: false })
    }
}

/// What comes next while the bytes from `offset` to `hole` are data.
pub open spec fn copies_data(
    source: Seq<u8>,
    length: u64,
    offset: u64,
    hole: u64,
    cancelled: bool,
    step: SparseStep,
) -> bool {
    if offset >= hole {
        goes_on(source, length, hole, cancelled, step)
    } else if cancelled {
        step matches SparseStep::Failed(message) && message@ == "Operation cancelled"@
    } else {
        step matches SparseStep::Copy(wanted) && wanted.file() == source && wanted.size() == length
            && wanted.start() == offset && wanted.until() == hole && wanted.stop() == (if hole
            - offset > BUFFER_BYTES {
            (offset + BUFFER_BYTES) as u64
        } else {
            hole
        })
    }
}

fn copy_data(source: PathBuf, length: u64, offset: u64, hole: u64, cancelled: bool) -> (step:
    SparseStep)
    requires
        hole <= length,
    ensures
        copies_data(source.text(), length, offset, hole, cancelled, step),
{
    if offset >= hole {
        return go_on(source, length, hole, cancelled);
    }
    if cancelled {
        return SparseStep::Failed("Operation cancelled".to_owned());
    }
    let end: u64 = if hole - offset > BUFFER_BYTES { offset + BUFFER_BYTES } else { hole };
    SparseStep::Copy(ChunkWanted { source, length, offset, end, hole })
}

impl HoleWanted {
    /// What follows from where the data ends.
    pub open spec fn follows(self, hole: Seek, cancelled: bool, step: SparseStep) -> bool {
        match hole {
            Seek::At(offset) => {
                let end = if offset < self.size() {
                    offset
                } else {
                    self.size()
                };
                if self.first() {
                    if self.from() == 0 && end >= self.size() {
                        step is Plain
                    } else {
                        goes_on(self.file(), self.size(), 0, cancelled, step)
                    }
                } else {
                    copies_data(self.file(), self.size(), self.from(), end, cancelled, step)
                }
            },
            _ => if self.first() {
                step is Plain
            } else {
                step matches SparseStep::Failed(message) && message@ == extents_unknown(self.file())
            },
        }
    }

    /// Where the data ends. `cancelled` says whether the copy was abandoned.
    pub fn found(self, hole: Seek, cancelled: bool) -> (step: SparseStep)
        ensures
            self.follows(hole, cancelled, step),
    {
        proof {
            use_type_invariant(&self);
        }
        let HoleWanted { source, length, data, probing } = self;
        match hole {
            Seek::At(offset) => {
                let end: u64 = if offset < length { offset } else { length };
                if probing {
                    if data == 0 && end >= length {
                        SparseStep::Plain
                    } else {
                        go_on(source, length, 0, cancelled)
                    }
                } else {
                    copy_data(source, length, data, end, cancelled)
                }
            },
            _ => if probing {
                SparseStep::Plain
            } else {
                SparseStep::Failed(at("Could not inspect sparse extents in", &source))
            },
        }
    }
}

/// Why some bytes could not be copied.
pub open spec fn chunk_refusal(source: Seq<u8>, outcome: ChunkOutcome) -> Option<Seq<char>> {
    match outcome {
        ChunkOutcome::Unseekable => Some(located("Could not seek sparse file"@, source)),
        ChunkOutcome::Unread => Some(located("Could not read"@, source)),
        ChunkOutcome::Unwritten => Some(located("Could not write sparse extent for"@, source)),
        ChunkOutcome::Copied => None,
    }
}

impl ChunkWanted {
    /// What follows from whether the bytes were copied.
    pub open spec fn follows(
        self,
        outcome: ChunkOutcome,
        cancelled: bool,
        step: SparseStep,
    ) -> bool {
        match chunk_refusal(self.file(), outcome) {
            Some(why) => step matches SparseStep::Failed(message) && message@ == why,
            None => copies_data(
                self.file(),
                self.size(),
                self.stop(),
                self.until(),
                cancelled,
                step,
            ),
        }
    }

    /// Whether the bytes were copied.
    pub fn copied(self, outcome: ChunkOutcome, cancelled: bool) -> (step: SparseStep)
        ensures
            self.follows(outcome, cancelled, step),
    {
        proof {
            use_type_invariant(&self);
        }
        let ChunkWanted { source, length, end, hole, .. } = self;
        match outcome {
            ChunkOutcome::Unseekable => SparseStep::Failed(at("Could not seek sparse file", &source)),
            ChunkOutcome::Unread => SparseStep::Failed(at("Could not read", &source)),
            ChunkOutcome::Unwritten => SparseStep::Failed(
                at("Could not write sparse extent for", &source),
            ),
            ChunkOutcome::Copied => copy_data(source, length, end, hole, cancelled),
        }
    }
}

impl SizeWanted {
    /// Whether the copy could be given its length. Holes count as copied
    /// bytes, so the progress gains the whole length at once.
    pub fn sized(self, done: bool, progress: &mut TransferProgress) -> (result: Result<(), String>)
        ensures
            match result {
                Ok(_) => done && final(progress)@ == (TransferProgressSnapshot {
                    completed_bytes: counted(old(progress)@.completed_bytes, self.length),
                    ..old(progress)@
                }),
                Err(message) => !done && message@ == located(
                    "Could not size sparse file"@,
                    self.source.text(),
                ) && final(progress)@ == old(progress)@,
            },
    {
        if done {
            progress.complete_bytes(self.length);
            Ok(())
        } else {
            Err(at("Could not size sparse file", &self.source))
        }
    }
}

/// A file with holes: what it reads as, and which of its bytes are data.
#[verifier::ext_equal]
pub struct Extents {
    pub bytes: Seq<u8>,
    pub data: Set<int>,
}

impl Extents {
    /// Whether this can be a file: a hole reads as zeros.
    pub open spec fn sound(self) -> bool {
        &&& self.bytes.len() <= u64::MAX
        &&& forall|i: int|
            0 <= i < self.bytes.len() && !self.data.contains(i) ==> #[trigger] self.bytes[i] == 0
    }

    /// Whether an answer is where the first data at or after an offset is.
    pub open spec fn data_is(self, from: u64, answer: Seek) -> bool {
        match answer {
            Seek::At(at) => from <= at && forall|i: int|
                from <= i < at && i < self.bytes.len() ==> !#[trigger] self.data.contains(i),
            Seek::PastEnd => forall|i: int|
                from <= i < self.bytes.len() ==> !#[trigger] self.data.contains(i),
            Seek::Failed => false,
        }
    }

    /// Whether an answer is where the first hole after an offset is.
    pub open spec fn hole_is(self, from: u64, answer: Seek) -> bool {
        match answer {
            Seek::At(at) => from < at && forall|i: int|
                from <= i < at && i < self.bytes.len() ==> #[trigger] self.data.contains(i),
            Seek::PastEnd => from >= self.bytes.len(),
            Seek::Failed => false,
        }
    }
}

/// A sparse copy under way, and the bytes that were written so far.
#[verifier::ext_equal]
pub struct SparseState {
    pub step: SparseStep,
    pub written: Map<int, u8>,
}

/// What was written once some more bytes of a file were copied.
pub open spec fn also_written(
    written: Map<int, u8>,
    bytes: Seq<u8>,
    range: (u64, u64),
) -> Map<int, u8> {
    Map::new(
        |i: int| written.dom().contains(i) || range.0 <= i < range.0 + range.1,
        |i: int|
            if range.0 <= i < range.0 + range.1 {
                bytes[i]
            } else {
                written[i]
            },
    )
}

/// Whether a sparse copy looked for data and was told where it is.
pub open spec fn seeks_data(
    file: Extents,
    before: SparseState,
    after: SparseState,
    wanted: DataWanted,
    offset: u64,
    answer: Seek,
) -> bool {
    &&& before.step == SparseStep::SeekData(wanted)
    &&& wanted.looks_from(offset)
    &&& file.data_is(offset, answer)
    &&& wanted.follows(answer, after.step)
    &&& after.written == before.written
}

/// Whether a sparse copy looked for a hole and was told where it is.
pub open spec fn seeks_hole(
    file: Extents,
    before: SparseState,
    after: SparseState,
    wanted: HoleWanted,
    offset: u64,
    answer: Seek,
) -> bool {
    &&& before.step == SparseStep::SeekHole(wanted)
    &&& wanted.looks_from(offset)
    &&& file.hole_is(offset, answer)
    &&& wanted.follows(answer, false, after.step)
    &&& after.written == before.written
}

/// Whether a sparse copy copied the bytes it asked for.
pub open spec fn writes(
    file: Extents,
    before: SparseState,
    after: SparseState,
    wanted: ChunkWanted,
    range: (u64, u64),
) -> bool {
    &&& before.step == SparseStep::Copy(wanted)
    &&& wanted.covers(range)
    &&& wanted.follows(ChunkOutcome::Copied, false, after.step)
    &&& after.written == also_written(before.written, file.bytes, range)
}

/// Whether a sparse copy that nobody abandons went on from one state to the
/// next, told what is in the file.
pub open spec fn proceeds(file: Extents, run: Seq<SparseState>, at: int) -> bool {
    let before = run[at];
    let after = run[at + 1];
    ||| exists|wanted: DataWanted, offset: u64, answer: Seek| #[trigger]
        seeks_data(file, before, after, wanted, offset, answer)
    ||| exists|wanted: HoleWanted, offset: u64, answer: Seek| #[trigger]
        seeks_hole(file, before, after, wanted, offset, answer)
    ||| exists|wanted: ChunkWanted, range: (u64, u64)| #[trigger]
        writes(file, before, after, wanted, range)
}

/// Whether a sparse copy of a file went through these states from its first.
pub open spec fn sparsely_copied(file: Extents, source: Seq<u8>, run: Seq<SparseState>) -> bool {
    &&& file.sound()
    &&& run.len() > 0
    &&& begins(source, Some(file.bytes.len() as u64), run[0].step)
    &&& run[0].written == Map::<int, u8>::empty()
    &&& forall|i: int| 0 <= i < run.len() - 1 ==> #[trigger] proceeds(file, run, i)
}

/// What a copy reads as: what was written, and zeros elsewhere.
pub open spec fn reads(written: Map<int, u8>, i: int) -> u8 {
    if written.dom().contains(i) {
        written[i]
    } else {
        0
    }
}

/// How far everything is copied that is to be.
pub open spec fn reached(step: SparseStep, length: int) -> int {
    match step {
        SparseStep::SeekData(wanted) => wanted.from() as int,
        SparseStep::SeekHole(wanted) => if wanted.first() {
            0
        } else {
            wanted.from() as int
        },
        SparseStep::Copy(wanted) => wanted.start() as int,
        SparseStep::Finish(_) => length,
        _ => 0,
    }
}

/// How far along a copy is, counting everything it asks for.
pub open spec fn progressed(step: SparseStep, length: int) -> int {
    match step {
        SparseStep::SeekData(wanted) => if wanted.first() {
            0
        } else {
            2 + 3 * wanted.from()
        },
        SparseStep::SeekHole(wanted) => if wanted.first() {
            1
        } else {
            3 + 3 * wanted.from()
        },
        SparseStep::Copy(wanted) => 4 + 3 * wanted.start(),
        SparseStep::Plain | SparseStep::Finish(_) => 3 * length + 4,
        SparseStep::Failed(_) => 0,
    }
}

/// What holds of a sparse copy at every step: it is about the same file, what
/// is before where it has come to is written exactly where it is data, and
/// nothing is written after.
pub open spec fn on_track(file: Extents, source: Seq<u8>, state: SparseState) -> bool {
    let length = file.bytes.len();
    &&& match state.step {
        SparseStep::SeekData(wanted) => wanted.file() == source && wanted.size() == length
            && wanted.from() < length && (wanted.first() ==> wanted.from() == 0),
        SparseStep::SeekHole(wanted) => {
            &&& wanted.file() == source
            &&& wanted.size() == length
            &&& !wanted.first() ==> wanted.from() < length
            &&& wanted.first() ==> length > 0 && forall|i: int|
                0 <= i < wanted.from() && i < length ==> !#[trigger] file.data.contains(i)
        },
        SparseStep::Copy(wanted) => {
            &&& wanted.file() == source
            &&& wanted.size() == length
            &&& wanted.start() < wanted.stop() <= wanted.until() <= length
            &&& forall|i: int|
                wanted.start() <= i < wanted.until() ==> #[trigger] file.data.contains(i)
        },
        SparseStep::Finish(wanted) => wanted.source.text() == source && wanted.length == length,
        SparseStep::Plain => forall|i: int|
            0 <= i < length ==> #[trigger] file.data.contains(i) || {
                forall|j: int| 0 <= j < length ==> !#[trigger] file.data.contains(j)
            },
        SparseStep::Failed(_) => false,
    }
    &&& 0 <= reached(state.step, length as int) <= length
    &&& forall|i: int| #[trigger]
        state.written.dom().contains(i) <==> 0 <= i < reached(state.step, length as int)
            && file.data.contains(i)
    &&& forall|i: int| #[trigger]
        state.written.dom().contains(i) ==> state.written[i] == file.bytes[i]
}

proof fn lemma_stays_on_track(file: Extents, source: Seq<u8>, run: Seq<SparseState>, at: int)
    requires
        file.sound(),
        on_track(file, source, run[at]),
        proceeds(file, run, at),
    ensures
        on_track(file, source, run[at + 1]),
        progressed(run[at].step, file.bytes.len() as int) < progressed(
            run[at + 1].step,
            file.bytes.len() as int,
        ) <= 3 * file.bytes.len() + 4,
{
    let before = run[at];
    let after = run[at + 1];
    let length = file.bytes.len();
    match before.step {
        SparseStep::SeekData(wanted) => {
            let (offset, answer) = choose|offset: u64, answer: Seek| #[trigger]
                seeks_data(file, before, after, wanted, offset, answer);
            assert(seeks_data(file, before, after, wanted, offset, answer));
        },
        SparseStep::SeekHole(wanted) => {
            let (offset, answer) = choose|offset: u64, answer: Seek| #[trigger]
                seeks_hole(file, before, after, wanted, offset, answer);
            assert(seeks_hole(file, before, after, wanted, offset, answer));
        },
        SparseStep::Copy(wanted) => {
            let range = choose|range: (u64, u64)| #[trigger]
                writes(file, before, after, wanted, range);
            assert(writes(file, before, after, wanted, range));
            assert forall|i: int| #[trigger] after.written.dom().contains(i) == (0 <= i < reached(
                after.step,
                length as int,
            ) && file.data.contains(i)) by {
                assert(before.written.dom().contains(i) == (0 <= i < wanted.start()
                    && file.data.contains(i)));
            }
        },
        _ => {},
    }
}

proof fn lemma_always_on_track(file: Extents, source: Seq<u8>, run: Seq<SparseState>, at: int)
    requires
        sparsely_copied(file, source, run),
        0 <= at < run.len(),
    ensures
        on_track(file, source, run[at]),
        at <= progressed(run[at].step, file.bytes.len() as int) <= 3 * file.bytes.len() + 4,
    decreases at,
{
    if at > 0 {
        lemma_always_on_track(file, source, run, at - 1);
        assert(proceeds(file, run, at - 1));
        lemma_stays_on_track(file, source, run, at - 1);
    }
}

/// A finished sparse copy reads as its source, byte for byte, and has its
/// length: every byte of the source that is data was copied. And it is as
/// sparse as its source: only data was written.
pub proof fn lemma_sparse_copy_is_whole(file: Extents, source: Seq<u8>, run: Seq<SparseState>)
    requires
        sparsely_copied(file, source, run),
        run.last().step is Finish,
    ensures
        run.last().step matches SparseStep::Finish(wanted) && wanted.source.text() == source
            && wanted.length == file.bytes.len(),
        forall|i: int|
            0 <= i < file.bytes.len() ==> #[trigger] reads(run.last().written, i) == file.bytes[i],
        forall|i: int|
            0 <= i < file.bytes.len() ==> (#[trigger] run.last().written.dom().contains(i)
                <==> file.data.contains(i)),
{
    lemma_always_on_track(file, source, run, run.len() - 1);
    assert forall|i: int| 0 <= i < file.bytes.len() implies #[trigger] reads(
        run.last().written,
        i,
    ) == file.bytes[i] by {
        assert(run.last().written.dom().contains(i) == file.data.contains(i));
    }
}

/// A file is copied plainly only before anything is written, and only where it
/// has no hole beside its data.
pub proof fn lemma_plain_copy_has_no_holes(file: Extents, source: Seq<u8>, run: Seq<SparseState>)
    requires
        sparsely_copied(file, source, run),
        run.last().step is Plain,
    ensures
        run.last().written == Map::<int, u8>::empty(),
        (forall|i: int| 0 <= i < file.bytes.len() ==> #[trigger] file.data.contains(i)) || (
        forall|i: int| 0 <= i < file.bytes.len() ==> !#[trigger] file.data.contains(i)),
{
    lemma_always_on_track(file, source, run, run.len() - 1);
    assert(run.last().written =~= Map::<int, u8>::empty()) by {
        assert forall|i: int| !#[trigger] run.last().written.dom().contains(i) by {
            assert(run.last().written.dom().contains(i) ==> 0 <= i < 0);
        }
        assert(run.last().written.dom() =~= Set::empty());
    }
}

/// A sparse copy that nobody abandons and that the system carries out never
/// fails, and comes to an end.
pub proof fn lemma_sparse_copy_comes_to_an_end(
    file: Extents,
    source: Seq<u8>,
    run: Seq<SparseState>,
)
    requires
        sparsely_copied(file, source, run),
    ensures
        forall|i: int| 0 <= i < run.len() ==> !((#[trigger] run[i]).step is Failed),
        run.len() <= 3 * file.bytes.len() + 5,
{
    assert forall|i: int| 0 <= i < run.len() implies !((#[trigger] run[i]).step is Failed) by {
        lemma_always_on_track(file, source, run, i);
    }
    lemma_always_on_track(file, source, run, run.len() - 1);
}

/// A sparse copy that was abandoned, or that the system did not carry out, is
/// never taken for a finished one.
pub proof fn lemma_failed_chunk_ends_sparse_copy(
    wanted: ChunkWanted,
    outcome: ChunkOutcome,
    cancelled: bool,
    step: SparseStep,
)
    requires
        wanted.follows(outcome, cancelled, step),
        wanted.covers((wanted.start(), (wanted.stop() - wanted.start()) as u64)),
        wanted.until() <= wanted.size(),
    ensures
        !(outcome is Copied) ==> step is Failed,
        cancelled && wanted.start() + BUFFER_BYTES < wanted.until() ==> step is Failed,
{
}

} // verus!
