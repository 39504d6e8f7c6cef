//! File sink manager.
//!
//! A sink owns at most one active file, rolls it when a write would push it
//! past `max_size` or when `roll_interval_ms` has elapsed since it was
//! opened, promotes each sealed file to the target directory, and notifies
//! an uploader of every promoted file when a deposit channel is configured.
//!
//! A file is modelled by the sequence of payloads framed into it; its name
//! carries the millisecond timestamp at which it was opened.  The shell that
//! owns the filesystem performs one directory action per model transition:
//! opening a temporary file, appending a frame, and the seal-and-rename that
//! promotes a file.  Timestamps enter as arguments; the sink never lets its
//! own clock run backwards, so file names are issued in non-decreasing
//! order.

use vstd::prelude::*;
use crate::codec::{decode_spec, frames_spec, lemma_frames_round_trip, payloads_fit};

verus! {

/// A promoted (or recovered) file: the open timestamp from its name, and the
/// framed payloads it holds.
pub struct FileRecord {
    pub name_ms: u64,
    pub frames: Vec<Vec<u8>>,
}

/// Model of a file: name timestamp and payload sequence.
pub struct FileModel {
    pub name_ms: u64,
    pub frames: Seq<Seq<u8>>,
}

impl View for FileRecord {
    type V = FileModel;

    open spec fn view(&self) -> FileModel {
        FileModel { name_ms: self.name_ms, frames: self.frames@.map_values(|p: Vec<u8>| p@) }
    }
}

/// The active file of a sink.
pub struct ActiveFile {
    pub opened_at: u64,
    pub bytes_written: u64,
    pub frames: Vec<Vec<u8>>,
}

/// Model of the active file.
pub struct ActiveModel {
    pub opened_at: u64,
    pub bytes_written: u64,
    pub frames: Seq<Seq<u8>>,
}

impl View for ActiveFile {
    type V = ActiveModel;

    open spec fn view(&self) -> ActiveModel {
        ActiveModel {
            opened_at: self.opened_at,
            bytes_written: self.bytes_written,
            frames: self.frames@.map_values(|p: Vec<u8>| p@),
        }
    }
}

/// An event the sink's run loop multiplexes: a received message, or a
/// rollover tick.  A shutdown signal ends the event sequence.
pub enum SinkEvent {
    Msg(Vec<u8>, u64),
    Tick(u64),
}

/// Model of a run-loop event.
pub enum SinkEventModel {
    Msg(Seq<u8>, u64),
    Tick(u64),
}

impl View for SinkEvent {
    type V = SinkEventModel;

    open spec fn view(&self) -> SinkEventModel {
        match self {
            SinkEvent::Msg(buf, now_ms) => SinkEventModel::Msg(buf@, *now_ms),
            SinkEvent::Tick(now_ms) => SinkEventModel::Tick(*now_ms),
        }
    }
}

/// Model of a sink: configuration, clock, active file, promoted files in
/// promotion order, and the file names handed to the uploader, in order.
pub struct SinkModel {
    pub max_size: u64,
    pub roll_interval_ms: u64,
    pub has_deposits: bool,
    pub clock_ms: u64,
    pub active: Option<ActiveModel>,
    pub promoted: Seq<FileModel>,
    pub notifications: Seq<u64>,
}

/// Sum of the payload lengths framed into a file.
pub open spec fn sum_lens(frames: Seq<Seq<u8>>) -> int
    decreases frames.len(),
{
    if frames.len() == 0 {
        0
    } else {
        sum_lens(frames.drop_last()) + frames.last().len()
    }
}

/// Length of the longest payload framed into a file.
pub open spec fn max_len(frames: Seq<Seq<u8>>) -> int
    decreases frames.len(),
{
    if frames.len() == 0 {
        0
    } else if frames.last().len() >= max_len(frames.drop_last()) {
        frames.last().len() as int
    } else {
        max_len(frames.drop_last())
    }
}

/// A file the sink itself filled: either it stayed under the size limit, or
/// a single over-large record forced it past the limit on its own.
pub open spec fn file_bounded(frames: Seq<Seq<u8>>, max_size: u64) -> bool {
    sum_lens(frames) < max_size || frames.len() == 1
}

impl SinkModel {
    /// Structural invariant of a running sink: the active file's byte count
    /// is the sum of its frame lengths, the active file respects the size
    /// rule, and it was opened no later than the sink's clock.
    pub open spec fn wf(self) -> bool {
        match self.active {
            Some(a) => a.bytes_written == sum_lens(a.frames) && a.frames.len() >= 1
                && file_bounded(a.frames, self.max_size) && a.opened_at <= self.clock_ms,
            None => true,
        }
    }

    /// The clock after observing `now_ms`: the sink's time never regresses.
    pub open spec fn clock_after(self, now_ms: u64) -> u64 {
        if now_ms > self.clock_ms {
            now_ms
        } else {
            self.clock_ms
        }
    }
}

/// Seal the active file, if any, promote it to the target directory, and
/// notify the uploader when a deposit channel is configured.
pub open spec fn promote_step(s: SinkModel) -> SinkModel {
    match s.active {
        None => s,
        Some(a) => SinkModel {
            active: None,
            promoted: s.promoted.push(FileModel { name_ms: a.opened_at, frames: a.frames }),
            notifications: if s.has_deposits {
                s.notifications.push(a.opened_at)
            } else {
                s.notifications
            },
            ..s
        },
    }
}

/// The sink state with a fresh active file holding `buf` alone, opened at
/// the (already advanced) clock.
pub open spec fn open_step(s: SinkModel, buf: Seq<u8>) -> SinkModel {
    SinkModel {
        active: Some(
            ActiveModel {
                opened_at: s.clock_ms,
                bytes_written: buf.len() as u64,
                frames: seq![buf],
            },
        ),
        ..s
    }
}

/// Write one record: open a file if none is active; roll first when the
/// write would reach `max_size`; then frame the record into the active file.
pub open spec fn write_step(s: SinkModel, buf: Seq<u8>, now_ms: u64) -> SinkModel {
    let s1 = SinkModel { clock_ms: s.clock_after(now_ms), ..s };
    match s1.active {
        None => open_step(s1, buf),
        Some(a) => {
            if a.bytes_written + buf.len() >= s1.max_size {
                open_step(promote_step(s1), buf)
            } else {
                SinkModel {
                    active: Some(
                        ActiveModel {
                            opened_at: a.opened_at,
                            bytes_written: (a.bytes_written + buf.len()) as u64,
                            frames: a.frames.push(buf),
                        },
                    ),
                    ..s1
                }
            }
        },
    }
}

/// Rollover tick: promote the active file when `roll_interval_ms` has
/// elapsed since it was opened.
pub open spec fn tick_step(s: SinkModel, now_ms: u64) -> SinkModel {
    let s1 = SinkModel { clock_ms: s.clock_after(now_ms), ..s };
    match s1.active {
        None => s1,
        Some(a) => {
            if a.opened_at + s1.roll_interval_ms <= s1.clock_ms {
                promote_step(s1)
            } else {
                s1
            }
        },
    }
}

/// One run-loop transition.
pub open spec fn sink_step(s: SinkModel, e: SinkEventModel) -> SinkModel {
    match e {
        SinkEventModel::Msg(buf, now_ms) => write_step(s, buf, now_ms),
        SinkEventModel::Tick(now_ms) => tick_step(s, now_ms),
    }
}

/// The run loop over a finite event sequence, without the final seal.
pub open spec fn run_steps(s: SinkModel, events: Seq<SinkEventModel>) -> SinkModel
    decreases events.len(),
{
    if events.len() == 0 {
        s
    } else {
        run_steps(sink_step(s, events[0]), events.drop_first())
    }
}

/// The record payloads carried by an event sequence, in arrival order.
pub open spec fn writes_of(events: Seq<SinkEventModel>) -> Seq<Seq<u8>>
    decreases events.len(),
{
    if events.len() == 0 {
        Seq::empty()
    } else {
        (match events[0] {
            SinkEventModel::Msg(buf, _) => seq![buf],
            SinkEventModel::Tick(_) => Seq::empty(),
        }) + writes_of(events.drop_first())
    }
}

/// All payloads of a file sequence, concatenated in file order.
pub open spec fn all_frames(files: Seq<FileModel>) -> Seq<Seq<u8>>
    decreases files.len(),
{
    if files.len() == 0 {
        Seq::empty()
    } else {
        all_frames(files.drop_last()) + files.last().frames
    }
}

/// The payloads a sink state holds: promoted files first, then the active
/// file.
pub open spec fn held_frames(s: SinkModel) -> Seq<Seq<u8>> {
    all_frames(s.promoted) + (match s.active {
        Some(a) => a.frames,
        None => Seq::empty(),
    })
}

/// The name timestamps of a file sequence, in file order.
pub open spec fn names_of(files: Seq<FileModel>) -> Seq<u64> {
    files.map_values(|f: FileModel| f.name_ms)
}

/// File names are non-decreasing in promotion order.
pub open spec fn names_sorted(files: Seq<FileModel>) -> bool {
    forall|i: int, j: int|
        0 <= i < j < files.len() ==> #[trigger] files[i].name_ms <= #[trigger] files[j].name_ms
}

/// Initialization and crash recovery.  The matching temporary files are
/// promoted behind the files already in the target directory, and with a
/// deposit channel every file then in the target directory is announced
/// exactly once, in directory order.
pub open spec fn create_spec(
    target: Seq<FileModel>,
    tmp: Seq<FileModel>,
    max_size: u64,
    roll_interval_ms: u64,
    has_deposits: bool,
    now_ms: u64,
) -> SinkModel {
    SinkModel {
        max_size,
        roll_interval_ms,
        has_deposits,
        clock_ms: now_ms,
        active: None,
        promoted: target + tmp,
        notifications: if has_deposits {
            names_of(target + tmp)
        } else {
            Seq::empty()
        },
    }
}

/// Configuration of a sink before creation: the matching files found in
/// the target and temporary directories, and the rollover limits.
pub struct FileSinkBuilder {
    pub target_files: Vec<FileRecord>,
    pub tmp_files: Vec<FileRecord>,
    pub max_size: u64,
    pub roll_interval_ms: u64,
    pub has_deposits: bool,
}

impl FileSinkBuilder {
    /// Defaults: fifty megabytes per file, a three-minute rollover, no
    /// deposit channel.
    pub fn new(target_files: Vec<FileRecord>, tmp_files: Vec<FileRecord>) -> (r: FileSinkBuilder)
        ensures
            r.target_files == target_files,
            r.tmp_files == tmp_files,
            r.max_size == 50_000_000u64,
            r.roll_interval_ms == 180_000u64,
            !r.has_deposits,
    {
        FileSinkBuilder {
            target_files,
            tmp_files,
            max_size: 50_000_000,
            roll_interval_ms: 180_000,
            has_deposits: false,
        }
    }

    /// Set the size at which a write rolls the file.
    pub fn max_size(self, max_size: u64) -> (r: FileSinkBuilder)
        ensures
            r == (FileSinkBuilder { max_size, ..self }),
    {
        FileSinkBuilder { max_size, ..self }
    }

    /// Set the rollover interval, in milliseconds.
    pub fn roll_time(self, roll_interval_ms: u64) -> (r: FileSinkBuilder)
        ensures
            r == (FileSinkBuilder { roll_interval_ms, ..self }),
    {
        FileSinkBuilder { roll_interval_ms, ..self }
    }

    /// Configure whether promoted files are announced to an uploader.
    pub fn deposits(self, has_deposits: bool) -> (r: FileSinkBuilder)
        ensures
            r == (FileSinkBuilder { has_deposits, ..self }),
    {
        FileSinkBuilder { has_deposits, ..self }
    }

    /// Initialize the sink: recovery over the configured directories.
    pub fn create(self, now_ms: u64) -> (r: FileSink)
        ensures
            r@ == create_spec(
                self.target_files@.map_values(|f: FileRecord| f@),
                self.tmp_files@.map_values(|f: FileRecord| f@),
                self.max_size,
                self.roll_interval_ms,
                self.has_deposits,
                now_ms,
            ),
            r@.wf(),
    {
        FileSink::create(
            self.target_files,
            self.tmp_files,
            self.max_size,
            self.roll_interval_ms,
            self.has_deposits,
            now_ms,
        )
    }
}

/// The sink itself: executable state whose view is a `SinkModel`.
pub struct FileSink {
    pub max_size: u64,
    pub roll_interval_ms: u64,
    pub has_deposits: bool,
    pub clock_ms: u64,
    pub active: Option<ActiveFile>,
    pub promoted: Vec<FileRecord>,
    pub notifications: Vec<u64>,
}

impl View for FileSink {
    type V = SinkModel;

    open spec fn view(&self) -> SinkModel {
        SinkModel {
            max_size: self.max_size,
            roll_interval_ms: self.roll_interval_ms,
            has_deposits: self.has_deposits,
            clock_ms: self.clock_ms,
            active: match &self.active {
                Some(a) => Some(a@),
                None => None,
            },
            promoted: self.promoted@.map_values(|f: FileRecord| f@),
            notifications: self.notifications@,
        }
    }
}

impl FileSink {
    /// Initialize a sink over the files found on disk: the target
    /// directory's matching entries and the matching leftovers under the
    /// temporary directory, which are promoted as they stand.  With a
    /// deposit channel, every file then in the target directory is
    /// announced exactly once.
    pub fn create(
        target_files: Vec<FileRecord>,
        tmp_files: Vec<FileRecord>,
        max_size: u64,
        roll_interval_ms: u64,
        has_deposits: bool,
        now_ms: u64,
    ) -> (r: FileSink)
        ensures
            r@ == create_spec(
                target_files@.map_values(|f: FileRecord| f@),
                tmp_files@.map_values(|f: FileRecord| f@),
                max_size,
                roll_interval_ms,
                has_deposits,
                now_ms,
            ),
            r@.wf(),
    {
        let ghost target_model = target_files@.map_values(|f: FileRecord| f@);
        let ghost tmp_model = tmp_files@.map_values(|f: FileRecord| f@);
        let mut promoted = target_files;
        let mut tmp = tmp_files;
        let mut notifications: Vec<u64> = Vec::new();
        while tmp.len() > 0
            invariant
                promoted@.map_values(|f: FileRecord| f@) + tmp@.map_values(|f: FileRecord| f@)
                    =~= target_model + tmp_model,
            decreases tmp@.len(),
        {
            let ghost pm = promoted@.map_values(|f: FileRecord| f@);
            let ghost tm = tmp@.map_values(|f: FileRecord| f@);
            let f = tmp.remove(0);
            promoted.push(f);
            proof {
                assert(promoted@.map_values(|f: FileRecord| f@) =~= pm.push(tm[0]));
                assert(tmp@.map_values(|f: FileRecord| f@) =~= tm.drop_first());
                assert(pm.push(tm[0]) + tm.drop_first() =~= pm + tm);
            }
        }
        proof {
            assert(tmp@.map_values(|f: FileRecord| f@) =~= Seq::<FileModel>::empty());
            assert(promoted@.map_values(|f: FileRecord| f@) =~= target_model + tmp_model);
        }
        if has_deposits {
            let mut i: usize = 0;
            while i < promoted.len()
                invariant
                    0 <= i <= promoted@.len(),
                    notifications@ =~= names_of(
                        promoted@.map_values(|f: FileRecord| f@).subrange(0, i as int),
                    ),
                decreases promoted@.len() - i,
            {
                notifications.push(promoted[i].name_ms);
                proof {
                    let model = promoted@.map_values(|f: FileRecord| f@);
                    assert(names_of(model.subrange(0, i as int)).push(model[i as int].name_ms)
                        =~= names_of(model.subrange(0, i as int + 1)));
                }
                i += 1;
            }
            proof {
                let model = promoted@.map_values(|f: FileRecord| f@);
                assert(model.subrange(0, model.len() as int) =~= model);
            }
        }
        let r = FileSink {
            max_size,
            roll_interval_ms,
            has_deposits,
            clock_ms: now_ms,
            active: None,
            promoted,
            notifications,
        };
        proof {
            assert(r@.promoted =~= target_model + tmp_model);
            if has_deposits {
                assert(r@.notifications =~= names_of(target_model + tmp_model));
            } else {
                assert(r@.notifications =~= Seq::<u64>::empty());
            }
        }
        r
    }

    /// Advance the clock to `now_ms`, never backwards.
    fn advance_clock(&mut self, now_ms: u64)
        ensures
            *final(self) == (FileSink { clock_ms: old(self)@.clock_after(now_ms), ..*old(self) }),
    {
        if now_ms > self.clock_ms {
            self.clock_ms = now_ms;
        }
    }

    /// Seal the active file, if any, and promote it: the shell renames the
    /// temporary file into the target directory and, when a deposit channel
    /// is configured, announces the promoted name.
    pub fn promote_active(&mut self)
        ensures
            final(self)@ == promote_step(old(self)@),
            final(self)@.wf(),
    {
        let taken = self.active.take();
        match taken {
            None => {},
            Some(a) => {
                let name_ms = a.opened_at;
                self.promoted.push(FileRecord { name_ms, frames: a.frames });
                if self.has_deposits {
                    self.notifications.push(name_ms);
                }
                proof {
                    assert(self@.promoted =~= promote_step(old(self)@).promoted);
                    assert(self@.notifications =~= promote_step(old(self)@).notifications);
                }
            },
        }
    }

    /// Write one record: open a file if none is active, roll first when the
    /// write would reach `max_size`, then frame the record.
    pub fn write(&mut self, buf: Vec<u8>, now_ms: u64)
        requires
            old(self)@.wf(),
        ensures
            final(self)@ == write_step(old(self)@, buf@, now_ms),
            final(self)@.wf(),
    {
        self.advance_clock(now_ms);
        let len64 = buf.len() as u64;
        let roll_needed = match &self.active {
            None => false,
            Some(a) => len64 >= self.max_size || a.bytes_written >= self.max_size - len64,
        };
        if roll_needed {
            self.promote_active();
        }
        match self.active.take() {
            None => {
                let opened_at = self.clock_ms;
                self.active = Some(
                    ActiveFile { opened_at, bytes_written: len64, frames: vec![buf] },
                );
                proof {
                    let a = self@.active.unwrap();
                    assert(a.frames =~= seq![buf@]);
                    assert(a.frames.drop_last() =~= Seq::<Seq<u8>>::empty());
                    assert(sum_lens(Seq::<Seq<u8>>::empty()) == 0);
                    assert(a.frames.last() == buf@);
                    assert(sum_lens(a.frames) == buf@.len());
                }
            },
            Some(mut a) => {
                let ghost prev = a@.frames;
                a.bytes_written = a.bytes_written + len64;
                a.frames.push(buf);
                self.active = Some(a);
                proof {
                    let m = self@.active.unwrap();
                    assert(m.frames =~= prev.push(buf@));
                    assert(m.frames.drop_last() =~= prev);
                    assert(sum_lens(m.frames) == sum_lens(prev) + buf@.len());
                }
            },
        }
    }

    /// Rollover tick: promote the active file when `roll_interval_ms` has
    /// elapsed since it was opened.  Afterwards any remaining active file is
    /// younger than the rollover interval.
    pub fn maybe_roll(&mut self, now_ms: u64)
        requires
            old(self)@.wf(),
        ensures
            final(self)@ == tick_step(old(self)@, now_ms),
            final(self)@.wf(),
            final(self)@.active is Some ==> final(self)@.active.unwrap().opened_at
                + final(self)@.roll_interval_ms > final(self)@.clock_ms,
    {
        self.advance_clock(now_ms);
        let roll_needed = match &self.active {
            None => false,
            Some(a) => self.clock_ms >= self.roll_interval_ms && a.opened_at <= self.clock_ms
                - self.roll_interval_ms,
        };
        if roll_needed {
            self.promote_active();
        }
    }

    /// Graceful shutdown: seal and promote the active file.
    pub fn shutdown(&mut self)
        requires
            old(self)@.wf(),
        ensures
            final(self)@ == promote_step(old(self)@),
            final(self)@.wf(),
            final(self)@.active is None,
    {
        self.promote_active();
    }

    /// Drive the sink over a finite event sequence, then shut down, as the
    /// run loop does when the shutdown signal fires or the input channel
    /// reports that all senders are gone.
    pub fn run(&mut self, events: Vec<SinkEvent>)
        requires
            old(self)@.wf(),
        ensures
            final(self)@ == promote_step(
                run_steps(old(self)@, events@.map_values(|e: SinkEvent| e@)),
            ),
            final(self)@.wf(),
            final(self)@.active is None,
    {
        let ghost all_events = events@.map_values(|e: SinkEvent| e@);
        let mut pending = events;
        while pending.len() > 0
            invariant
                self@.wf(),
                run_steps(old(self)@, all_events) == run_steps(
                    self@,
                    pending@.map_values(|e: SinkEvent| e@),
                ),
            decreases pending@.len(),
        {
            let ghost before = pending@.map_values(|e: SinkEvent| e@);
            let e = pending.remove(0);
            proof {
                assert(pending@.map_values(|e: SinkEvent| e@) =~= before.drop_first());
                assert(before[0] == e@);
            }
            match e {
                SinkEvent::Msg(buf, now_ms) => self.write(buf, now_ms),
                SinkEvent::Tick(now_ms) => self.maybe_roll(now_ms),
            }
        }
        proof {
            assert(pending@.map_values(|e: SinkEvent| e@) =~= Seq::<SinkEventModel>::empty());
        }
        self.shutdown();
    }
}

/// Milliseconds of wall-clock time.  Relies on chrono's `Utc::now` and
/// `timestamp_millis`; nothing is promised of the clock, and the sink
/// clamps regressions itself.
#[verifier::external_body]
fn now_ms_raw() -> i64 {
    chrono::Utc::now().timestamp_millis()
}

/// The wall clock in milliseconds, clamped to zero before the epoch.
fn current_ms() -> u64 {
    let t = now_ms_raw();
    if t < 0 {
        0
    } else {
        t as u64
    }
}

impl FileSink {
    /// Write one record stamped with the wall clock, as the run loop does
    /// for a received message.
    pub fn write_now(&mut self, buf: Vec<u8>)
        requires
            old(self)@.wf(),
        ensures
            final(self)@.wf(),
            exists|now_ms: u64| final(self)@ == write_step(old(self)@, buf@, now_ms),
    {
        let now_ms = current_ms();
        self.write(buf, now_ms);
    }

    /// Roll on the wall clock, as the run loop does on a rollover tick.
    pub fn maybe_roll_now(&mut self)
        requires
            old(self)@.wf(),
        ensures
            final(self)@.wf(),
            exists|now_ms: u64| final(self)@ == tick_step(old(self)@, now_ms),
    {
        let now_ms = current_ms();
        self.maybe_roll(now_ms);
    }
}

/// Time bound: a rollover tick promotes every file older than the rollover
/// interval, so any file still active after the tick was opened less than
/// `roll_interval_ms` before the clock.  The slack of one tick in the end
/// to end bound is the shell's tick cadence, not the sink's.
pub proof fn lemma_time_bound(s: SinkModel, now_ms: u64)
    ensures
        tick_step(s, now_ms).active is Some ==> tick_step(s, now_ms).active.unwrap().opened_at
            + s.roll_interval_ms > now_ms,
{
}

/// Promotion moves the active file's payloads into the promoted files and
/// loses none of them.
pub proof fn lemma_promote_frames(s: SinkModel)
    ensures
        held_frames(promote_step(s)) == held_frames(s),
        promote_step(s).active is None,
{
    match s.active {
        None => {
            assert(held_frames(promote_step(s)) =~= held_frames(s));
        },
        Some(a) => {
            let f = FileModel { name_ms: a.opened_at, frames: a.frames };
            let p = s.promoted.push(f);
            assert(p.drop_last() =~= s.promoted);
            assert(p.last() == f);
            assert(all_frames(p) == all_frames(s.promoted) + a.frames);
            assert(held_frames(promote_step(s)) =~= held_frames(s));
        },
    }
}

/// A write adds exactly its record to the payloads the sink holds.
pub proof fn lemma_write_frames(s: SinkModel, buf: Seq<u8>, now_ms: u64)
    ensures
        held_frames(write_step(s, buf, now_ms)) == held_frames(s).push(buf),
{
    let s1 = SinkModel { clock_ms: s.clock_after(now_ms), ..s };
    assert(held_frames(s1) == held_frames(s));
    match s1.active {
        None => {
            assert(held_frames(open_step(s1, buf)) =~= held_frames(s).push(buf));
        },
        Some(a) => {
            if a.bytes_written + buf.len() >= s1.max_size {
                lemma_promote_frames(s1);
                assert(held_frames(open_step(promote_step(s1), buf)) =~= held_frames(s).push(buf));
            } else {
                assert(held_frames(write_step(s, buf, now_ms)) =~= held_frames(s).push(buf));
            }
        },
    }
}

/// A rollover tick loses no payloads.
pub proof fn lemma_tick_frames(s: SinkModel, now_ms: u64)
    ensures
        held_frames(tick_step(s, now_ms)) == held_frames(s),
{
    let s1 = SinkModel { clock_ms: s.clock_after(now_ms), ..s };
    assert(held_frames(s1) == held_frames(s));
    match s1.active {
        None => {},
        Some(a) => {
            if a.opened_at + s1.roll_interval_ms <= s1.clock_ms {
                lemma_promote_frames(s1);
            }
        },
    }
}

/// A run holds, at its end, exactly the payloads it held at the start
/// followed by every record written during the run, in arrival order.
pub proof fn lemma_run_frames(s: SinkModel, events: Seq<SinkEventModel>)
    ensures
        held_frames(run_steps(s, events)) == held_frames(s) + writes_of(events),
    decreases events.len(),
{
    if events.len() == 0 {
        assert(held_frames(s) + writes_of(events) =~= held_frames(s));
    } else {
        let s1 = sink_step(s, events[0]);
        match events[0] {
            SinkEventModel::Msg(buf, now_ms) => {
                lemma_write_frames(s, buf, now_ms);
                assert(held_frames(s1) == held_frames(s).push(buf));
            },
            SinkEventModel::Tick(now_ms) => {
                lemma_tick_frames(s, now_ms);
            },
        }
        lemma_run_frames(s1, events.drop_first());
        assert(held_frames(s1) + writes_of(events.drop_first()) =~= held_frames(s) + writes_of(
            events,
        ));
    }
}

/// A record a real producer can hand over: its length fits the byte count.
pub open spec fn event_fits(e: SinkEventModel) -> bool {
    match e {
        SinkEventModel::Msg(buf, _) => buf.len() <= u64::MAX,
        SinkEventModel::Tick(_) => true,
    }
}

/// Every record of the event sequence fits the byte count.
pub open spec fn events_fit(events: Seq<SinkEventModel>) -> bool {
    forall|i: int| 0 <= i < events.len() ==> event_fits(#[trigger] events[i])
}

/// Name timestamps never pass the sink's clock, and promotion keeps them in
/// non-decreasing order.
pub open spec fn names_ok(s: SinkModel) -> bool {
    names_sorted(s.promoted) && (forall|i: int|
        0 <= i < s.promoted.len() ==> #[trigger] s.promoted[i].name_ms <= s.clock_ms) && (match s
        .active {
        Some(a) => forall|i: int|
            0 <= i < s.promoted.len() ==> #[trigger] s.promoted[i].name_ms <= a.opened_at,
        None => true,
    })
}

/// Each run-loop transition preserves `wf` and the name ordering.
pub proof fn lemma_step_ok(s: SinkModel, e: SinkEventModel)
    requires
        s.wf(),
        names_ok(s),
        event_fits(e),
    ensures
        sink_step(s, e).wf(),
        names_ok(sink_step(s, e)),
{
    match e {
        SinkEventModel::Msg(buf, now_ms) => {
            let s1 = SinkModel { clock_ms: s.clock_after(now_ms), ..s };
            match s1.active {
                None => {
                    let a = open_step(s1, buf).active.unwrap();
                    assert(a.frames.drop_last() =~= Seq::<Seq<u8>>::empty());
                    assert(sum_lens(Seq::<Seq<u8>>::empty()) == 0);
                    assert(sum_lens(a.frames) == buf.len());
                },
                Some(a) => {
                    if a.bytes_written + buf.len() >= s1.max_size {
                        let s2 = promote_step(s1);
                        let b = open_step(s2, buf).active.unwrap();
                        assert(b.frames.drop_last() =~= Seq::<Seq<u8>>::empty());
                        assert(sum_lens(Seq::<Seq<u8>>::empty()) == 0);
                        assert(sum_lens(b.frames) == buf.len());
                    } else {
                        let b = write_step(s, buf, now_ms).active.unwrap();
                        assert(b.frames.drop_last() =~= a.frames);
                        assert(b.frames.last() == buf);
                    }
                },
            }
        },
        SinkEventModel::Tick(now_ms) => {},
    }
}

/// Every file a run promotes beyond those already promoted respects the
/// size rule: it stayed under `max_size`, or it holds a single record.
pub open spec fn promoted_bounded(s: SinkModel, from: int) -> bool {
    forall|i: int|
        from <= i < s.promoted.len() ==> file_bounded(#[trigger] s.promoted[i].frames, s.max_size)
}

/// One transition keeps every file it promotes within the size rule.
pub proof fn lemma_step_bounded(s: SinkModel, e: SinkEventModel, from: int)
    requires
        0 <= from,
        s.wf(),
        promoted_bounded(s, from),
    ensures
        promoted_bounded(sink_step(s, e), from),
        sink_step(s, e).promoted.len() >= s.promoted.len(),
{
    let s1 = sink_step(s, e);
    assert forall|i: int|
        from <= i < s1.promoted.len() implies file_bounded(
        #[trigger] s1.promoted[i].frames,
        s1.max_size,
    ) by {
        if i < s.promoted.len() {
            assert(s1.promoted[i] == s.promoted[i]);
        } else {
            assert(s1.promoted[i].frames == s.active.unwrap().frames);
        }
    }
}

/// The largest payload length is never negative.
pub proof fn lemma_max_len_nonneg(frames: Seq<Seq<u8>>)
    ensures
        max_len(frames) >= 0,
    decreases frames.len(),
{
    if frames.len() > 0 {
        lemma_max_len_nonneg(frames.drop_last());
    }
}

/// A file within the size rule has framed length at most `max_size` plus
/// its largest record: a single over-large record exceeds the limit by at
/// most itself.
pub proof fn lemma_size_bound(frames: Seq<Seq<u8>>, max_size: u64)
    requires
        file_bounded(frames, max_size),
    ensures
        sum_lens(frames) <= max_size + max_len(frames),
{
    lemma_max_len_nonneg(frames);
    if frames.len() == 1 {
        assert(frames.drop_last() =~= Seq::<Seq<u8>>::empty());
        assert(sum_lens(Seq::<Seq<u8>>::empty()) == 0);
        assert(max_len(Seq::<Seq<u8>>::empty()) == 0);
        assert(sum_lens(frames) == frames.last().len());
        assert(max_len(frames) == frames.last().len());
    }
}

/// Size bound over a whole run: starting from a sink whose promoted files
/// all respect the size rule, every file promoted by the run does too.
pub proof fn lemma_run_size_bound(s: SinkModel, events: Seq<SinkEventModel>, from: int)
    requires
        0 <= from,
        s.wf(),
        names_ok(s),
        promoted_bounded(s, from),
        events_fit(events),
    ensures
        run_steps(s, events).wf(),
        names_ok(run_steps(s, events)),
        promoted_bounded(run_steps(s, events), from),
    decreases events.len(),
{
    if events.len() > 0 {
        lemma_step_ok(s, events[0]);
        lemma_step_bounded(s, events[0], from);
        assert forall|i: int| 0 <= i < events.drop_first().len() implies event_fits(
            #[trigger] events.drop_first()[i],
        ) by {
            assert(events.drop_first()[i] == events[i + 1]);
        }
        lemma_run_size_bound(sink_step(s, events[0]), events.drop_first(), from);
    }
}

/// Round trip over a run: a sink created over empty directories, driven by
/// any finite event sequence and then shut down, has promoted files whose
/// concatenated payloads are exactly the records written, in order, and
/// whose names are non-decreasing in promotion order — so reading the files
/// back in name order recovers the input sequence.
pub proof fn lemma_round_trip(s: SinkModel, events: Seq<SinkEventModel>)
    requires
        s.wf(),
        s.active is None,
        s.promoted == Seq::<FileModel>::empty(),
        events_fit(events),
    ensures
        all_frames(promote_step(run_steps(s, events)).promoted) == writes_of(events),
        names_sorted(promote_step(run_steps(s, events)).promoted),
        promote_step(run_steps(s, events)).active is None,
{
    let r = run_steps(s, events);
    lemma_run_frames(s, events);
    assert(held_frames(s) =~= Seq::<Seq<u8>>::empty());
    assert(held_frames(r) =~= writes_of(events));
    lemma_promote_frames(r);
    assert(all_frames(promote_step(r).promoted) =~= held_frames(promote_step(r)));
    lemma_run_size_bound(s, events, 0);
    assert(names_ok(promote_step(r)));
}

/// The round trip holds at the byte level too: each promoted file's
/// decompressed byte stream decodes cleanly to exactly its payloads, so
/// concatenating the decoded frames of the promoted files, in name order,
/// recovers the records written.
pub proof fn lemma_promoted_bytes_round_trip(files: Seq<FileModel>)
    requires
        forall|i: int| 0 <= i < files.len() ==> payloads_fit((#[trigger] files[i]).frames),
    ensures
        forall|i: int|
            0 <= i < files.len() ==> decode_spec(frames_spec((#[trigger] files[i]).frames)) == (
                files[i].frames,
                true,
            ),
{
    assert forall|i: int|
        0 <= i < files.len() implies decode_spec(frames_spec((#[trigger] files[i]).frames)) == (
        files[i].frames,
        true,
    ) by {
        lemma_frames_round_trip(files[i].frames);
    }
}

/// At most one file is ever active: the sink keeps at most one file of its
/// own under the temporary directory at any instant, since recovery drains
/// the leftovers when the sink is created and every roll promotes the
/// active file before a new one is opened.
pub proof fn lemma_at_most_one_active(s: SinkModel, events: Seq<SinkEventModel>, k: int)
    requires
        0 <= k <= events.len(),
    ensures
        (match run_steps(s, events.take(k)).active {
            Some(_) => 1int,
            None => 0int,
        }) <= 1,
{
}

/// Recovery idempotence: creating a sink twice in succession, with no
/// writes between, promotes the temporary leftovers once, leaves the target
/// directory unchanged the second time, and announces each target file
/// exactly once per creation.
pub proof fn lemma_recovery_idempotent(
    target: Seq<FileModel>,
    tmp: Seq<FileModel>,
    max_size: u64,
    roll_interval_ms: u64,
    t1: u64,
    t2: u64,
)
    ensures
        ({
            let s1 = create_spec(target, tmp, max_size, roll_interval_ms, true, t1);
            let s2 = create_spec(
                s1.promoted,
                Seq::<FileModel>::empty(),
                max_size,
                roll_interval_ms,
                true,
                t2,
            );
            s2.promoted == s1.promoted && s1.notifications == names_of(s1.promoted)
                && s2.notifications == names_of(s1.promoted)
        }),
{
    let s1 = create_spec(target, tmp, max_size, roll_interval_ms, true, t1);
    assert(s1.promoted + Seq::<FileModel>::empty() =~= s1.promoted);
}

} // verus!
