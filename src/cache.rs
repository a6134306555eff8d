//! The cache: a store, the dirty flag and the operation counter, with the command
//! dispatcher, the sweep and the persistence encode and decode on top.

use vstd::prelude::*;
use crate::clock::now_secs;
use crate::codec::{
    chunk_frames, decode_frame, frame_key, frame_opcode, frame_value, is_empty_key,
    is_empty_key_bytes, payload_of, split_frames, PAYLOAD_LEN,
};
use crate::entry::{creation_time, decode_value, projects, value_expired, CacheEntry};
use crate::persist::{
    append_bytes, holds_records, lemma_append_record, lemma_saved_map_contains, load_result,
    loaded_map, record_count, record_key, record_value, saved_map, RECORD_LEN,
};
use crate::store::{expired_at, expired_keys, well_formed_contents, Store};

verus! {

/// Opcode of a lookup, `G`; also the code of a lookup that found nothing.
pub const OP_GET: u8 = 0x47;

/// Opcode of an insertion, `I`; also the code of its acknowledgement.
pub const OP_INSERT: u8 = 0x49;

/// Opcode of a removal, `R`; also the code of its acknowledgement.
pub const OP_REMOVE: u8 = 0x52;

/// Opcode of a halt, `H`, which asks for a save.
pub const OP_HALT: u8 = 0x48;

/// The code of a rejected lookup or insertion with the all-zero key, `E`.
pub const EMPTY_KEY_CODE: u8 = 0x45;

/// The line ending of every reply.
pub const NEWLINE: u8 = 0x0a;

/// How many dispatched frames make a sweep due, unless configured otherwise.
pub const DEFAULT_INVALIDATION_THRESHOLD: usize = 100;

/// How much a cache writes to its log.
#[allow(non_camel_case_types)]
#[derive(Clone, Copy, Debug, PartialEq, Eq, Structural)]
pub enum LogLevel {
    NORMAL,
    DEBUG,
}

/// The abstract state of a cache.
pub ghost struct CacheState {
    /// The raw value under each key.
    pub raw: Map<Seq<u8>, Seq<u8>>,
    /// The creation time of each key's entry.
    pub created: Map<Seq<u8>, i64>,
    /// Set by every mutation, cleared by a completed save.
    pub dirty: bool,
    /// Frames dispatched since a sweep was last due.
    pub ops: nat,
    /// How many frames make a sweep due.
    pub threshold: nat,
    /// Whether shutdown has been requested.
    pub exiting: bool,
    pub level: LogLevel,
    pub log_path: Seq<char>,
}

/// What dispatching one frame produced.
pub struct Response {
    /// The bytes to write to the output stream.
    pub output: Vec<u8>,
    /// The frame was a halt: the caller should save now.
    pub save_requested: bool,
    /// Enough frames have been dispatched that a sweep should be scheduled.
    pub sweep_due: bool,
}

/// The reply to frame `f` against raw values `raw`.
pub open spec fn reply(raw: Map<Seq<u8>, Seq<u8>>, f: Seq<u8>) -> Seq<u8> {
    let op = frame_opcode(f);
    let k = frame_key(f);
    if (op == OP_GET || op == OP_INSERT) && is_empty_key(k) {
        seq![EMPTY_KEY_CODE, NEWLINE]
    } else if op == OP_GET {
        if raw.contains_key(k) {
            payload_of(raw[k]).push(NEWLINE)
        } else {
            seq![OP_GET, NEWLINE]
        }
    } else if op == OP_INSERT {
        seq![OP_INSERT, NEWLINE]
    } else if op == OP_REMOVE {
        seq![OP_REMOVE, NEWLINE]
    } else {
        Seq::empty()
    }
}

/// Whether frame `f` stores its value: an insertion with a key that is not all zero.
pub open spec fn stores_value(f: Seq<u8>) -> bool {
    frame_opcode(f) == OP_INSERT && !is_empty_key(frame_key(f))
}

/// Whether a frame dispatched with counter `ops` makes a sweep due.
pub open spec fn sweep_due_after(ops: nat, threshold: nat) -> bool {
    ops + 1 >= threshold
}

/// The state after dispatching frame `f` at time `now`.
pub open spec fn step(s: CacheState, f: Seq<u8>, now: i64) -> CacheState {
    let k = frame_key(f);
    let removes = frame_opcode(f) == OP_REMOVE;
    CacheState {
        raw: if stores_value(f) {
            s.raw.insert(k, frame_value(f))
        } else if removes {
            s.raw.remove(k)
        } else {
            s.raw
        },
        created: if stores_value(f) {
            s.created.insert(k, now)
        } else if removes {
            s.created.remove(k)
        } else {
            s.created
        },
        dirty: s.dirty || stores_value(f) || removes,
        ops: if sweep_due_after(s.ops, s.threshold) {
            0
        } else {
            s.ops + 1
        },
        ..s
    }
}

/// `r` is what dispatching frame `f` in state `s` produces.
pub open spec fn responds(r: Response, s: CacheState, f: Seq<u8>) -> bool {
    &&& r.output@ == reply(s.raw, f)
    &&& r.save_requested == (frame_opcode(f) == OP_HALT)
    &&& r.sweep_due == sweep_due_after(s.ops, s.threshold)
}

/// The views of a sequence of frames.
pub open spec fn frame_views(fs: Seq<[u8; 128]>) -> Seq<Seq<u8>> {
    fs.map_values(|f: [u8; 128]| f@)
}

/// The state after dispatching the frames `fs` in order at time `now`.
pub open spec fn run(s: CacheState, fs: Seq<Seq<u8>>, now: i64) -> CacheState
    decreases fs.len(),
{
    if fs.len() == 0 {
        s
    } else {
        step(run(s, fs.drop_last(), now), fs.last(), now)
    }
}

/// The state after a batch: the frames in order, then the dirty flag set.
pub open spec fn run_batch(s: CacheState, fs: Seq<Seq<u8>>, now: i64) -> CacheState {
    CacheState { dirty: true, ..run(s, fs, now) }
}

/// `rs` holds, for each frame of `fs`, what dispatching it after the ones before
/// produced.
pub open spec fn batch_responds(
    rs: Seq<Response>,
    s: CacheState,
    fs: Seq<Seq<u8>>,
    now: i64,
) -> bool {
    &&& rs.len() == fs.len()
    &&& forall|i: int|
        0 <= i < fs.len() ==> #[trigger] responds(rs[i], run(s, fs.take(i), now), fs[i])
}

/// The state after a sweep at `now`: every expired key gone from both maps.
pub open spec fn swept(s: CacheState, now: i64) -> CacheState {
    let gone = expired_keys(s.raw, s.created, now);
    CacheState { raw: s.raw.remove_keys(gone), created: s.created.remove_keys(gone), ..s }
}

/// The creation time of each loaded key: its value decoded at `now`.
pub open spec fn loaded_created(raw: Map<Seq<u8>, Seq<u8>>, now: i64) -> Map<Seq<u8>, i64> {
    Map::new(|k: Seq<u8>| raw.contains_key(k), |k: Seq<u8>| creation_time(raw[k], now))
}

/// The state after loading the persisted bytes `b` at `now`: the store holds exactly
/// what `b` loads to, everything else is as before.
pub open spec fn after_load(s: CacheState, b: Seq<u8>, now: i64) -> CacheState {
    CacheState {
        raw: load_result(b, now),
        created: loaded_created(load_result(b, now), now),
        ..s
    }
}

/// Dispatching frames against a cache whose insertions are stamped with the
/// current time.
pub trait BufferAccess: Sized {
    /// The abstract state.
    spec fn state(&self) -> CacheState;

    /// The internal invariant.
    spec fn ready(&self) -> bool;

    /// Dispatches one frame, stamping an insertion with the time read from the clock.
    fn handle_in(&mut self, input: [u8; 128]) -> (r: Response)
        requires
            old(self).ready(),
        ensures
            final(self).ready(),
            exists|now: i64| final(self).state() == #[trigger] step(old(self).state(), input@, now),
            responds(r, old(self).state(), input@),
    ;

    /// Dispatches the frames in order, stamping insertions with one reading of the
    /// clock, then sets the dirty flag.
    fn handle_batch(&mut self, inputs: &[[u8; 128]]) -> (r: Vec<Response>)
        requires
            old(self).ready(),
        ensures
            final(self).ready(),
            exists|now: i64|
                final(self).state() == #[trigger] run_batch(
                    old(self).state(),
                    frame_views(inputs@),
                    now,
                ) && batch_responds(r@, old(self).state(), frame_views(inputs@), now),
    ;
}

/// A key-value cache with time-to-live eviction.
pub struct Cache {
    store: Store,
    log_path: String,
    level: LogLevel,
    ops_since_invalidation: usize,
    invalidation_threshold: usize,
    save_flag: bool,
    should_exit: bool,
}

impl View for Cache {
    type V = CacheState;

    closed spec fn view(&self) -> CacheState {
        CacheState {
            raw: self.store.raw_view(),
            created: self.store.created_view(),
            dirty: self.save_flag,
            ops: self.ops_since_invalidation as nat,
            threshold: self.invalidation_threshold as nat,
            exiting: self.should_exit,
            level: self.level,
            log_path: self.log_path@,
        }
    }
}

/// The reply to a lookup that found `raw`: its payload and a newline.
fn payload_line(raw: &[u8; 64]) -> (r: Vec<u8>)
    ensures
        r@ == payload_of(raw@).push(NEWLINE),
{
    let mut out: Vec<u8> = Vec::new();
    let mut i: usize = 0;
    while i < PAYLOAD_LEN
        invariant
            0 <= i <= PAYLOAD_LEN,
            out@ == raw@.subrange(0, i as int),
        decreases PAYLOAD_LEN - i,
    {
        out.push(raw[i]);
        i = i + 1;
        assert(out@ =~= raw@.subrange(0, i as int));
    }
    out.push(NEWLINE);
    out
}

/// A two-byte reply: `code` and a newline.
fn code_line(code: u8) -> (r: Vec<u8>)
    ensures
        r@ == seq![code, NEWLINE],
{
    let mut out: Vec<u8> = Vec::new();
    out.push(code);
    out.push(NEWLINE);
    assert(out@ =~= seq![code, NEWLINE]);
    out
}

impl Cache {
    /// The store is consistent and the counter is below a positive threshold.
    pub closed spec fn inv(&self) -> bool {
        &&& self.store.inv()
        &&& 0 < self.invalidation_threshold
        &&& self.ops_since_invalidation < self.invalidation_threshold
    }

    /// An empty, clean cache that logs to `log_path` at `level`.
    pub fn new(log_path: &str, level: LogLevel) -> (r: Cache)
        ensures
            r.inv(),
            r@.raw.is_empty(),
            r@.created.is_empty(),
            !r@.dirty,
            r@.ops == 0,
            r@.threshold == DEFAULT_INVALIDATION_THRESHOLD,
            !r@.exiting,
            r@.level == level,
            r@.log_path == log_path@,
    {
        Cache {
            store: Store::new(),
            log_path: log_path.to_owned(),
            level,
            ops_since_invalidation: 0,
            invalidation_threshold: DEFAULT_INVALIDATION_THRESHOLD,
            save_flag: false,
            should_exit: false,
        }
    }

    /// Dispatches one frame at time `now`: a lookup replies with the payload or a miss,
    /// an insertion stores the value with its entry created at `now`, a removal removes
    /// the key, a halt asks for a save; lookups and insertions with the all-zero key are
    /// rejected, and other opcodes do nothing. Every frame advances the counter.
    pub fn handle_in_at(&mut self, input: [u8; 128], now: i64) -> (r: Response)
        requires
            old(self).inv(),
        ensures
            final(self).inv(),
            final(self)@ == step(old(self)@, input@, now),
            responds(r, old(self)@, input@),
    {
        let sweep_due = self.ops_since_invalidation + 1 >= self.invalidation_threshold;
        if sweep_due {
            self.ops_since_invalidation = 0;
        } else {
            self.ops_since_invalidation = self.ops_since_invalidation + 1;
        }
        let (command, key, value) = decode_frame(&input);
        let empty = is_empty_key_bytes(&key);
        let save_requested = command == OP_HALT;
        if empty && (command == OP_INSERT || command == OP_GET) {
            return Response { output: code_line(EMPTY_KEY_CODE), save_requested, sweep_due };
        }
        let output = if command == OP_GET {
            match self.store.get(&key) {
                Some(v) => payload_line(&v),
                None => code_line(OP_GET),
            }
        } else if command == OP_INSERT {
            self.store.insert(key, value, now);
            self.save_flag = true;
            code_line(OP_INSERT)
        } else if command == OP_REMOVE {
            self.store.remove(&key);
            self.save_flag = true;
            code_line(OP_REMOVE)
        } else {
            Vec::new()
        };
        assert(output@ =~= reply(old(self)@.raw, input@));
        Response { output, save_requested, sweep_due }
    }
    /// Dispatches the frames in order at time `now`, then sets the dirty flag whether
    /// or not any frame changed anything. Returns each frame's response in order.
    pub fn handle_batch_at(&mut self, inputs: &[[u8; 128]], now: i64) -> (r: Vec<Response>)
        requires
            old(self).inv(),
        ensures
            final(self).inv(),
            final(self)@ == run_batch(old(self)@, frame_views(inputs@), now),
            batch_responds(r@, old(self)@, frame_views(inputs@), now),
    {
        let ghost fs = frame_views(inputs@);
        let mut results: Vec<Response> = Vec::new();
        let mut i: usize = 0;
        while i < inputs.len()
            invariant
                self.inv(),
                0 <= i <= inputs@.len(),
                fs == frame_views(inputs@),
                self@ == run(old(self)@, fs.take(i as int), now),
                results@.len() == i,
                forall|j: int|
                    0 <= j < i ==> #[trigger] responds(
                        results@[j],
                        run(old(self)@, fs.take(j), now),
                        fs[j],
                    ),
            decreases inputs@.len() - i,
        {
            let r = self.handle_in_at(inputs[i], now);
            results.push(r);
            proof {
                assert(fs.take(i + 1).drop_last() =~= fs.take(i as int));
            }
            i = i + 1;
        }
        self.save_flag = true;
        assert(fs.take(inputs@.len() as int) =~= fs);
        results
    }

    /// Removes every entry that has expired by `now` from both maps; returns how many
    /// keys were removed.
    pub fn invalidate_cache_at(&mut self, now: i64) -> (removed: usize)
        requires
            old(self).inv(),
        ensures
            final(self).inv(),
            final(self)@ == swept(old(self)@, now),
            removed == old(self)@.raw.len() - final(self)@.raw.len(),
    {
        self.store.sweep(now)
    }

    /// Splits persisted bytes into records of key and raw value, in order; a trailing
    /// partial record is dropped.
    pub fn handle_read_lines(lines: &[u8]) -> (r: Vec<([u8; 63], [u8; 64])>)
        ensures
            r@.len() == record_count(lines@),
            forall|i: int|
                0 <= i < r@.len() ==> (#[trigger] r@[i]).0@ == record_key(lines@, i) && r@[i].1@
                    == record_value(lines@, i),
    {
        let len = lines.len();
        let n = len / RECORD_LEN;
        let mut out: Vec<([u8; 63], [u8; 64])> = Vec::new();
        let mut i: usize = 0;
        while i < n
            invariant
                0 <= i <= n,
                len == lines@.len(),
                n == len / 127,
                n == record_count(lines@),
                out@.len() == i,
                forall|j: int|
                    0 <= j < i ==> (#[trigger] out@[j]).0@ == record_key(lines@, j) && out@[j].1@
                        == record_value(lines@, j),
            decreases n - i,
        {
            assert(i * 127 + 127 <= len) by (nonlinear_arith)
                requires
                    i < n,
                    n == len / 127,
            ;
            let base: usize = i * 127;
            let mut key = [0u8; 63];
            let mut j: usize = 0;
            while j < 63
                invariant
                    0 <= j <= 63,
                    base + 127 <= len,
                    len == lines@.len(),
                    forall|m: int| 0 <= m < j ==> key@[m] == lines@[base + m],
                decreases 63 - j,
            {
                key[j] = lines[base + j];
                j = j + 1;
            }
            let mut value = [0u8; 64];
            let mut j: usize = 0;
            while j < 64
                invariant
                    0 <= j <= 64,
                    base + 127 <= len,
                    len == lines@.len(),
                    forall|m: int| 0 <= m < j ==> value@[m] == lines@[base + 63 + m],
                decreases 64 - j,
            {
                value[j] = lines[base + 63 + j];
                j = j + 1;
            }
            assert(key@ =~= record_key(lines@, i as int));
            assert(value@ =~= record_value(lines@, i as int));
            out.push((key, value));
            i = i + 1;
        }
        out
    }

    /// Replaces the store with what the persisted bytes load to at `now`: the records in
    /// order, later ones replacing earlier ones, without all-zero keys and without
    /// records that have expired by `now`.
    pub fn load_at(&mut self, bytes: &[u8], now: i64)
        requires
            old(self).inv(),
        ensures
            final(self).inv(),
            final(self)@ == after_load(old(self)@, bytes@, now),
    {
        let records = Self::handle_read_lines(bytes);
        let mut store = Store::new();
        let mut i: usize = 0;
        while i < records.len()
            invariant
                store.inv(),
                0 <= i <= records@.len(),
                records@.len() == record_count(bytes@),
                forall|j: int|
                    0 <= j < records@.len() ==> (#[trigger] records@[j]).0@ == record_key(
                        bytes@,
                        j,
                    ) && records@[j].1@ == record_value(bytes@, j),
                store.raw_view() == loaded_map(bytes@, i as int, now),
                store.created_view() == loaded_created(store.raw_view(), now),
            decreases records@.len() - i,
        {
            let (key, value) = records[i];
            assert(records@[i as int].0@ == record_key(bytes@, i as int));
            if !is_empty_key_bytes(&key) && !value_expired(&value, now) {
                let e = decode_value(&value, now);
                store.insert(key, value, e.created_at);
                assert(store.created_view() =~= loaded_created(store.raw_view(), now));
            }
            i = i + 1;
        }
        self.store = store;
    }

    /// The bytes a save at `now` writes: one record for each stored key that is not all
    /// zero and whose value has not expired by `now`, in no particular order.
    pub fn create_byte_lines_at(&self, now: i64) -> (r: Vec<u8>)
        requires
            self.inv(),
        ensures
            holds_records(r@, saved_map(self@.raw, now)),
    {
        let ghost raw = self.store.raw_view();
        let ghost m = saved_map(raw, now);
        let pairs = self.store.snapshot_for_save();
        assert(forall|j: int| 0 <= j < pairs@.len() ==> raw.contains_key(pairs@[j].0@));
        assert(forall|j: int| 0 <= j < pairs@.len() ==> raw[pairs@[j].0@] == pairs@[j].1@);
        let mut out: Vec<u8> = Vec::new();
        // For each record written, the index of the pair it came from.
        let ghost mut src: Seq<int> = Seq::empty();
        // For each key written, the index of its record.
        let ghost mut pos: Map<Seq<u8>, int> = Map::empty();
        let mut i: usize = 0;
        while i < pairs.len()
            invariant
                0 <= i <= pairs@.len(),
                m == saved_map(raw, now),
                forall|j: int|
                    0 <= j < pairs@.len() ==> #[trigger] raw.contains_key(pairs@[j].0@)
                        && raw[pairs@[j].0@] == pairs@[j].1@,
                forall|j: int, l: int| 0 <= j < l < pairs@.len() ==> pairs@[j].0@ != pairs@[l].0@,
                out@.len() == 127 * src.len(),
                forall|q: int|
                    0 <= q < src.len() ==> 0 <= #[trigger] src[q] < i && record_key(out@, q)
                        == pairs@[src[q]].0@,
                forall|q: int, p: int| 0 <= q < p < src.len() ==> #[trigger] src[q] < #[trigger] src[p],
                forall|q: int|
                    0 <= q < src.len() ==> #[trigger] m.contains_key(record_key(out@, q)) && m[record_key(
                        out@,
                        q,
                    )] == record_value(out@, q),
                forall|j: int|
                    0 <= j < i && #[trigger] m.contains_key(pairs@[j].0@) ==> pos.contains_key(
                        pairs@[j].0@,
                    ) && 0 <= pos[pairs@[j].0@] < src.len() && record_key(out@, pos[pairs@[j].0@])
                        == pairs@[j].0@,
            decreases pairs@.len() - i,
        {
            let (key, value) = pairs[i];
            let ghost prev = out@;
            assert(pairs@[i as int].0@ == key@ && pairs@[i as int].1@ == value@);
            assert(raw.contains_key(pairs@[i as int].0@));
            proof {
                lemma_saved_map_contains(raw, now, key@);
            }
            if !is_empty_key_bytes(&key) && !value_expired(&value, now) {
                append_bytes(&mut out, key.as_slice());
                append_bytes(&mut out, value.as_slice());
                proof {
                    let cnt = src.len() as int;
                    lemma_append_record(prev, key@, value@, cnt);
                    assert(out@ == prev + key@ + value@);
                    assert(m.contains_key(key@));
                    pos = pos.insert(key@, cnt);
                    src = src.push(i as int);
                    assert forall|j: int|
                        0 <= j < i + 1 && #[trigger] m.contains_key(pairs@[j].0@) implies pos.contains_key(
                        pairs@[j].0@,
                    ) && 0 <= pos[pairs@[j].0@] < src.len() && record_key(out@, pos[pairs@[j].0@])
                        == pairs@[j].0@ by {
                        if j < i {
                            assert(pairs@[j].0@ != pairs@[i as int].0@);
                        }
                    }
                }
            } else {
                assert(!m.contains_key(key@));
            }
            i = i + 1;
        }
        proof {
            assert(record_count(out@) == src.len());
            assert forall|k: Seq<u8>| #[trigger] m.contains_key(k) implies exists|q: int|
                0 <= q < record_count(out@) && record_key(out@, q) == k by {
                assert(raw.contains_key(k));
                let j = choose|j: int| 0 <= j < pairs@.len() && pairs@[j].0@ == k;
                assert(m.contains_key(pairs@[j].0@));
            }
            assert forall|q: int, p: int|
                0 <= q < p < record_count(out@) implies record_key(out@, q) != record_key(out@, p) by {
                assert(src[q] < src[p]);
            }
        }
        out
    }
}

impl BufferAccess for Cache {
    open spec fn state(&self) -> CacheState {
        self@
    }

    open spec fn ready(&self) -> bool {
        self.inv()
    }

    fn handle_in(&mut self, input: [u8; 128]) -> (r: Response) {
        let now = now_secs();
        let r = self.handle_in_at(input, now);
        assert(self.state() == step(old(self).state(), input@, now));
        r
    }

    fn handle_batch(&mut self, inputs: &[[u8; 128]]) -> (r: Vec<Response>) {
        let now = now_secs();
        let r = self.handle_batch_at(inputs, now);
        assert(self.state() == run_batch(old(self).state(), frame_views(inputs@), now));
        r
    }
}

impl Cache {
    /// Dispatches what one read of the input stream brought: a single whole frame on its
    /// own, several as a batch; a trailing partial frame is dropped.
    pub fn handle_chunk(&mut self, bytes: &[u8]) -> (r: Vec<Response>)
        requires
            old(self).inv(),
        ensures
            final(self).inv(),
            chunk_frames(bytes@).len() == 0 ==> final(self)@ == old(self)@ && r@.len() == 0,
            chunk_frames(bytes@).len() == 1 ==> r@.len() == 1 && responds(
                r@[0],
                old(self)@,
                chunk_frames(bytes@)[0],
            ) && exists|now: i64|
                final(self)@ == #[trigger] step(old(self)@, chunk_frames(bytes@)[0], now),
            chunk_frames(bytes@).len() > 1 ==> exists|now: i64|
                final(self)@ == #[trigger] run_batch(old(self)@, chunk_frames(bytes@), now)
                    && batch_responds(r@, old(self)@, chunk_frames(bytes@), now),
    {
        let frames = split_frames(bytes);
        proof {
            assert(frame_views(frames@) =~= chunk_frames(bytes@));
        }
        if frames.len() == 0 {
            Vec::new()
        } else if frames.len() == 1 {
            let r = self.handle_in(frames[0]);
            let mut out: Vec<Response> = Vec::new();
            out.push(r);
            out
        } else {
            self.handle_batch(frames.as_slice())
        }
    }

    /// Removes every entry that has expired by the time the clock reads now.
    pub fn invalidate_cache(&mut self) -> (removed: usize)
        requires
            old(self).inv(),
        ensures
            final(self).inv(),
            exists|now: i64| final(self)@ == #[trigger] swept(old(self)@, now),
            removed == old(self)@.raw.len() - final(self)@.raw.len(),
    {
        let now = now_secs();
        self.invalidate_cache_at(now)
    }

    /// Replaces the store with what the persisted bytes load to at the time the clock
    /// reads, then sweeps at a second reading to catch entries that expired meanwhile.
    pub fn load(&mut self, bytes: &[u8])
        requires
            old(self).inv(),
        ensures
            final(self).inv(),
            exists|t: i64, u: i64|
                final(self)@ == #[trigger] swept(after_load(old(self)@, bytes@, t), u),
    {
        let t = now_secs();
        self.load_at(bytes, t);
        let u = now_secs();
        self.invalidate_cache_at(u);
    }

    /// The bytes a save at the time the clock reads writes out.
    pub fn create_byte_lines(&self) -> (r: Vec<u8>)
        requires
            self.inv(),
        ensures
            exists|now: i64| #[trigger] holds_records(r@, saved_map(self@.raw, now)),
    {
        let now = now_secs();
        self.create_byte_lines_at(now)
    }

    /// Records that a save completed: clears the dirty flag.
    pub fn mark_saved(&mut self)
        requires
            old(self).inv(),
        ensures
            final(self).inv(),
            final(self)@ == (CacheState { dirty: false, ..old(self)@ }),
    {
        self.save_flag = false;
    }

    /// Records that shutdown has begun; the background duties stop at their next tick.
    pub fn request_exit(&mut self)
        requires
            old(self).inv(),
        ensures
            final(self).inv(),
            final(self)@ == (CacheState { exiting: true, ..old(self)@ }),
    {
        self.should_exit = true;
    }

    /// Whether the periodic persistence duty should save now: the store has unsaved
    /// changes and shutdown has not begun.
    pub fn save_due(&self) -> (r: bool)
        ensures
            r == (self@.dirty && !self@.exiting),
    {
        self.save_flag && !self.should_exit
    }

    /// Whether the store has changes that no completed save holds.
    pub fn is_dirty(&self) -> (r: bool)
        ensures
            r == self@.dirty,
    {
        self.save_flag
    }

    /// Whether shutdown has begun.
    pub fn should_exit(&self) -> (r: bool)
        ensures
            r == self@.exiting,
    {
        self.should_exit
    }

    /// The number of stored keys.
    pub fn len(&self) -> (r: usize)
        ensures
            r == self@.raw.len(),
    {
        self.store.len()
    }

    /// The raw value stored under `key`, if any.
    pub fn get(&self, key: &[u8; 63]) -> (r: Option<[u8; 64]>)
        ensures
            r is Some <==> self@.raw.contains_key(key@),
            r matches Some(v) ==> v@ == self@.raw[key@],
    {
        self.store.get(key)
    }

    /// The decoded entry stored under `key`, if any.
    pub fn entry(&self, key: &[u8; 63]) -> (r: Option<CacheEntry>)
        requires
            self.inv(),
        ensures
            r is Some <==> self@.raw.contains_key(key@),
            r matches Some(e) ==> projects(e, self@.raw[key@]) && e.created_at
                == self@.created[key@],
    {
        self.store.entry(key)
    }

    /// The level the cache logs at.
    pub fn level(&self) -> (r: LogLevel)
        ensures
            r == self@.level,
    {
        self.level
    }

    /// The path of the cache's log file.
    pub fn log_path(&self) -> (r: &str)
        ensures
            r@ == self@.log_path,
    {
        self.log_path.as_str()
    }

    /// How many dispatched frames make a sweep due.
    pub fn invalidation_threshold(&self) -> (r: usize)
        ensures
            r == self@.threshold,
    {
        self.invalidation_threshold
    }

    /// Sets how many dispatched frames make a sweep due, and restarts the count; a
    /// threshold of zero is refused and nothing changes. Returns whether it was set.
    pub fn set_invalidation_threshold(&mut self, threshold: usize) -> (r: bool)
        requires
            old(self).inv(),
        ensures
            final(self).inv(),
            r == (threshold > 0),
            r ==> final(self)@ == (CacheState { threshold: threshold as nat, ops: 0, ..old(self)@ }),
            !r ==> final(self)@ == old(self)@,
    {
        if threshold == 0 {
            return false;
        }
        self.invalidation_threshold = threshold;
        self.ops_since_invalidation = 0;
        true
    }
}

/// Removing a key that is not stored leaves every stored value and creation time as it
/// was, still replies "R\n", and still sets the dirty flag.
pub proof fn lemma_remove_absent(s: CacheState, f: Seq<u8>, now: i64)
    requires
        f.len() == 128,
        frame_opcode(f) == OP_REMOVE,
        well_formed_contents(s.raw, s.created),
        !s.raw.contains_key(frame_key(f)),
    ensures
        step(s, f, now).raw == s.raw,
        step(s, f, now).created == s.created,
        reply(s.raw, f) == seq![OP_REMOVE, NEWLINE],
        step(s, f, now).dirty,
{
    assert(s.raw.remove(frame_key(f)) =~= s.raw);
    assert(s.created.remove(frame_key(f)) =~= s.created);
}

/// A lookup or an insertion with the all-zero key replies "E\n" and changes neither
/// the stored values nor the dirty flag.
pub proof fn lemma_empty_key_rejected(s: CacheState, f: Seq<u8>, now: i64)
    requires
        f.len() == 128,
        frame_opcode(f) == OP_GET || frame_opcode(f) == OP_INSERT,
        is_empty_key(frame_key(f)),
    ensures
        reply(s.raw, f) == seq![EMPTY_KEY_CODE, NEWLINE],
        step(s, f, now).raw == s.raw,
        step(s, f, now).created == s.created,
        step(s, f, now).dirty == s.dirty,
{
}

/// Whatever its key, a removal replies "R\n" and sets the dirty flag, and a halt
/// replies nothing, asks for a save and changes no stored value.
pub proof fn lemma_remove_halt_any_key(s: CacheState, f: Seq<u8>, now: i64, r: Response)
    requires
        f.len() == 128,
        responds(r, s, f),
    ensures
        frame_opcode(f) == OP_REMOVE ==> r.output@ == seq![OP_REMOVE, NEWLINE] && step(
            s,
            f,
            now,
        ).dirty && !r.save_requested,
        frame_opcode(f) == OP_HALT ==> r.output@.len() == 0 && r.save_requested && step(
            s,
            f,
            now,
        ).raw == s.raw && step(s, f, now).dirty == s.dirty,
{
}

/// After an insertion with a key that is not all zero, a lookup of that key replies with
/// the inserted payload and a newline; so it does after a sweep at any time by which
/// the inserted entry has not expired.
pub proof fn lemma_insert_then_get(s: CacheState, ins: Seq<u8>, get: Seq<u8>, now: i64, later: i64)
    requires
        ins.len() == 128,
        get.len() == 128,
        frame_opcode(ins) == OP_INSERT,
        frame_opcode(get) == OP_GET,
        frame_key(ins) == frame_key(get),
        !is_empty_key(frame_key(ins)),
    ensures
        reply(step(s, ins, now).raw, get) == payload_of(frame_value(ins)).push(NEWLINE),
        !expired_at(frame_value(ins), now, later) ==> reply(
            swept(step(s, ins, now), later).raw,
            get,
        ) == payload_of(frame_value(ins)).push(NEWLINE),
{
    let t = step(s, ins, now);
    let k = frame_key(ins);
    if !expired_at(frame_value(ins), now, later) {
        assert(!expired_keys(t.raw, t.created, later).contains(k));
    }
}

/// A second sweep at the same time removes nothing: after a sweep no remaining entry has
/// expired by that time.
pub proof fn lemma_sweep_idempotent(s: CacheState, now: i64)
    requires
        well_formed_contents(s.raw, s.created),
    ensures
        expired_keys(swept(s, now).raw, swept(s, now).created, now).is_empty(),
        swept(swept(s, now), now) == swept(s, now),
{
    let t = swept(s, now);
    let gone = expired_keys(t.raw, t.created, now);
    assert(gone =~= Set::empty());
    assert(t.raw.remove_keys(gone) =~= t.raw);
    assert(t.created.remove_keys(gone) =~= t.created);
}

} // verus!
