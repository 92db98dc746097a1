//! The append-only memory stream: immutable records, durable via the ledger
//! line format, retrieved by a recency x importance x relevance score.

use vstd::prelude::*;
use vstd::string::StringSliceAdditionalSpecFns;

verus! {

/// Longest embedding vector a record may carry; keeps score arithmetic in
/// range.
pub const EMB_MAX_LEN: usize = 100000;

/// Largest magnitude of one fixed-point embedding component.
pub const EMB_MAX_ABS: i64 = 1000000000;

/// One observation in the stream. Immutable once appended. The embedding is
/// a fixed-point vector: each component is the real component times one
/// million, rounded.
#[derive(Debug)]
pub struct Memory {
    /// Ordinal of the record; strictly increasing within one stream.
    pub id: u32,
    /// RFC 3339 timestamp text of the moment the record was added.
    pub timestamp: String,
    /// Record category: a thought, a reflection, an observation.
    pub kind: String,
    /// The remembered text.
    pub content: String,
    /// How much the record matters, 1 through 10.
    pub importance: i32,
    /// Reflection depth: 0 for raw records, deeper for insights over them.
    pub depth: i32,
    /// Ids of the records a reflection was drawn from.
    pub references: Vec<u32>,
    /// Fixed-point embedding of the content; empty when embedding failed.
    pub embedding: Vec<i64>,
}

/// The mathematical shape of a record: every field as a plain value.
pub ghost struct MemModel {
    pub id: u32,
    pub timestamp: Seq<char>,
    pub kind: Seq<char>,
    pub content: Seq<char>,
    pub importance: i32,
    pub depth: i32,
    pub references: Seq<u32>,
    pub embedding: Seq<i64>,
}

impl View for Memory {
    type V = MemModel;

    open spec fn view(&self) -> MemModel {
        MemModel {
            id: self.id,
            timestamp: self.timestamp@,
            kind: self.kind@,
            content: self.content@,
            importance: self.importance,
            depth: self.depth,
            references: self.references@,
            embedding: self.embedding@,
        }
    }
}

/// A well-formed record: importance within its scale, an embedding small
/// enough to score without overflow, and room left above the id for the
/// next allocation.
pub open spec fn memory_wf(m: MemModel) -> bool {
    &&& 1 <= m.importance <= 10
    &&& m.id < u32::MAX
    &&& m.embedding.len() <= EMB_MAX_LEN
    &&& forall|i: int|
        0 <= i < m.embedding.len() ==> -EMB_MAX_ABS <= #[trigger] m.embedding[i] <= EMB_MAX_ABS
}


/// What a timestamp text denotes, as seconds since the epoch.
pub uninterp spec fn rfc3339_secs(s: Seq<char>) -> Option<i64>;

/// Relies on chrono's `DateTime::parse_from_rfc3339` followed by
/// `timestamp`: whether the text parses, and the epoch second it denotes,
/// are functions of the text alone.
#[verifier::external_body]
fn parse_rfc3339(s: &str) -> (r: Option<i64>)
    ensures
        r == rfc3339_secs(s@),
{
    match chrono::DateTime::parse_from_rfc3339(s) {
        Ok(t) => Some(t.timestamp()),
        Err(_) => None,
    }
}

/// The age a record is scored at: seconds from its timestamp to `now`, zero
/// for a timestamp in the future, and a fixed large age when the timestamp
/// does not parse.
pub open spec fn mem_age(now: i64, ts: Seq<char>) -> nat {
    match rfc3339_secs(ts) {
        Some(t) => if now >= t {
            (now - t) as nat
        } else {
            0
        },
        None => crate::score::FALLBACK_AGE_SECS as nat,
    }
}

/// The relevance contribution: cosine similarity, or zero when there is no
/// query embedding or either embedding is empty.
pub open spec fn mem_relevance(q: Option<Seq<i64>>, emb: Seq<i64>) -> int {
    match q {
        Some(qs) => if qs.len() > 0 && emb.len() > 0 {
            crate::score::cosine_spec(qs, emb)
        } else {
            0
        },
        None => 0,
    }
}

/// The full retrieval score of a record.
pub open spec fn mem_score(retention: u64, now: i64, m: MemModel, q: Option<Seq<i64>>) -> int {
    crate::score::score_spec(
        retention,
        mem_age(now, m.timestamp),
        m.importance as int,
        mem_relevance(q, m.embedding),
    )
}

/// The view of an optional borrowed embedding.
pub open spec fn opt_view(q: Option<&Vec<i64>>) -> Option<Seq<i64>> {
    match q {
        Some(v) => Some(v@),
        None => None,
    }
}

/// An embedding whose components scoring can take without overflow.
pub open spec fn embedding_ok(e: Seq<i64>) -> bool {
    e.len() <= EMB_MAX_LEN && forall|i: int|
        0 <= i < e.len() ==> -EMB_MAX_ABS <= #[trigger] e[i] <= EMB_MAX_ABS
}

/// Score one record against an optional query embedding at time `now`.
pub fn memory_score(retention: u64, now: i64, m: &Memory, q: Option<&Vec<i64>>) -> (r: i64)
    requires
        retention <= crate::score::SCORE_SCALE as u64,
        memory_wf(m@),
        match q {
            Some(v) => embedding_ok(v@),
            None => true,
        },
    ensures
        r as int == mem_score(retention, now, m@, opt_view(q)),
{
    let age: u64 = match parse_rfc3339(m.timestamp.as_str()) {
        Some(t) => {
            if now >= t {
                proof {
                    assert(0 <= (now as int) - (t as int) <= u64::MAX as int);
                }
                ((now as i128) - (t as i128)) as u64
            } else {
                0
            }
        },
        None => crate::score::FALLBACK_AGE_SECS,
    };
    let recency = crate::score::recency_score(retention, age);
    let relevance: i64 = match q {
        Some(qv) => {
            if m.embedding.len() > 0 && qv.len() > 0 {
                crate::score::cosine_fixed(qv, &m.embedding)
            } else {
                0
            }
        },
        None => 0,
    };
    crate::score::combine_score(recency, m.importance, relevance)
}

/// The ascii digits of a reply, in order.
pub open spec fn digit_bytes(s: Seq<u8>) -> Seq<u8>
    decreases s.len(),
{
    if s.len() == 0 {
        Seq::empty()
    } else if crate::ledger::is_digit(s.last()) {
        digit_bytes(s.drop_last()).push(s.last())
    } else {
        digit_bytes(s.drop_last())
    }
}

/// What importance a scorer reply yields: the number spelled by the ascii
/// digits scattered through the reply, clamped to 1..=10; the middle value 5
/// when there are no digits or they overflow a 32-bit integer.
pub open spec fn importance_of_reply(s: Seq<u8>) -> int {
    let d = digit_bytes(s);
    if d.len() == 0 {
        5
    } else if crate::ledger::digits_value(d) > i32::MAX {
        5
    } else if crate::ledger::digits_value(d) > 10 {
        10
    } else if crate::ledger::digits_value(d) < 1 {
        1
    } else {
        crate::ledger::digits_value(d) as int
    }
}

/// Digit value grows (or stays) as digits are appended.
proof fn lemma_digits_value_push(d: Seq<u8>, b: u8)
    ensures
        crate::ledger::digits_value(d.push(b)) == crate::ledger::digits_value(d) * 10 + ((b
            - 48) as nat),
{
    assert(d.push(b).drop_last() =~= d);
    assert(d.push(b).last() == b);
}

/// Extract the importance score from a scorer reply.
pub fn parse_importance(reply: &str) -> (r: i32)
    ensures
        r as int == importance_of_reply(reply.spec_bytes()),
        1 <= r <= 10,
{
    let bytes = reply.as_bytes();
    let n = bytes.len();
    let mut any: bool = false;
    let mut over: bool = false;
    let mut acc: u64 = 0;
    let mut i: usize = 0;
    proof {
        assert(bytes@.subrange(0, 0) =~= Seq::<u8>::empty());
    }
    while i < n
        invariant
            i <= n,
            n == bytes@.len(),
            any <==> digit_bytes(bytes@.subrange(0, i as int)).len() > 0,
            over <==> crate::ledger::digits_value(digit_bytes(bytes@.subrange(0, i as int)))
                > i32::MAX as nat,
            !over ==> acc as nat == crate::ledger::digits_value(
                digit_bytes(bytes@.subrange(0, i as int)),
            ),
            acc <= i32::MAX as u64 || over,
        decreases n - i,
    {
        let b = bytes[i];
        proof {
            assert(bytes@.subrange(0, i + 1) =~= bytes@.subrange(0, i as int).push(b));
            assert(bytes@.subrange(0, i + 1).drop_last() =~= bytes@.subrange(0, i as int));
        }
        if 48 <= b && b <= 57 {
            let d = (b - 48) as u64;
            proof {
                lemma_digits_value_push(digit_bytes(bytes@.subrange(0, i as int)), b);
            }
            if over {
                proof {
                    let v = crate::ledger::digits_value(
                        digit_bytes(bytes@.subrange(0, i as int)),
                    );
                    assert(v * 10 + ((b - 48) as nat) > i32::MAX as nat) by (nonlinear_arith)
                        requires
                            v > i32::MAX as nat,
                    ;
                }
            } else {
                let next = acc * 10 + d;
                if next > i32::MAX as u64 {
                    over = true;
                } else {
                    acc = next;
                }
            }
            any = true;
        }
        i += 1;
    }
    proof {
        assert(bytes@.subrange(0, n as int) =~= bytes@);
    }
    if !any || over {
        5
    } else if acc > 10 {
        10
    } else if acc < 1 {
        1
    } else {
        acc as i32
    }
}

// ---------------------------------------------------------------------------
// The stream
// ---------------------------------------------------------------------------

/// Append-only memory stream with recency x importance x relevance
/// retrieval. Ids are strictly increasing; the accumulated importance sum
/// triggers reflection once it passes the threshold.
pub struct MemoryStream {
    /// The records, in append order.
    pub memories: Vec<Memory>,
    /// Importance accumulated since the last completed reflection.
    pub importance_sum: u64,
    /// Per-second retention ratio for recency scoring, in score units.
    pub retention: u64,
    /// Accumulated importance at or above which reflection is due.
    pub reflection_threshold: u64,
    /// How many records a retrieval returns by default.
    pub retrieval_count: usize,
    /// The id the next appended record will carry.
    pub next_id: u32,
}

impl MemoryStream {
    /// Every record is well formed and older than the next id to be given
    /// out, and the retention ratio is at most one.
    pub open spec fn wf(&self) -> bool {
        &&& forall|i: int|
            0 <= i < self.memories@.len() ==> memory_wf(#[trigger] self.memories@[i]@)
        &&& forall|i: int|
            0 <= i < self.memories@.len() ==> (#[trigger] self.memories@[i]@.id)
                < self.next_id
        &&& self.retention <= crate::score::SCORE_SCALE as u64
    }

    /// A fresh, empty stream.
    pub fn new(retention: u64, reflection_threshold: u64, retrieval_count: usize) -> (r:
        MemoryStream)
        requires
            retention <= crate::score::SCORE_SCALE as u64,
        ensures
            r.wf(),
            r.memories@.len() == 0,
            r.importance_sum == 0,
            r.next_id == 0,
            r.retention == retention,
            r.reflection_threshold == reflection_threshold,
            r.retrieval_count == retrieval_count,
    {
        MemoryStream {
            memories: Vec::new(),
            importance_sum: 0,
            retention,
            reflection_threshold,
            retrieval_count,
            next_id: 0,
        }
    }

    /// Reflection is due exactly when the accumulated importance has reached
    /// the threshold.
    pub fn should_reflect(&self) -> (r: bool)
        ensures
            r == (self.importance_sum >= self.reflection_threshold),
    {
        self.importance_sum >= self.reflection_threshold
    }

    /// Zero the importance accumulator; the controller calls this exactly
    /// once per completed reflection pass.
    pub fn reset_importance_sum(&mut self)
        ensures
            final(self).importance_sum == 0,
            final(self).memories == old(self).memories,
            final(self).next_id == old(self).next_id,
            final(self).retention == old(self).retention,
            final(self).reflection_threshold == old(self).reflection_threshold,
            final(self).retrieval_count == old(self).retrieval_count,
            old(self).wf() ==> final(self).wf(),
    {
        self.importance_sum = 0;
    }

    /// After a reset, reflection is no longer due, for any positive
    /// threshold.
    pub proof fn lemma_reset_clears_reflection(&self)
        requires
            self.importance_sum == 0,
            self.reflection_threshold >= 1,
        ensures
            !(self.importance_sum >= self.reflection_threshold),
    {
    }

    /// Every stored record's id lies below the id the next `add` assigns:
    /// however a stream was reloaded, a fresh record's id is strictly
    /// greater than all prior ids.
    pub proof fn lemma_next_id_fresh(&self)
        requires
            self.wf(),
        ensures
            forall|i: int|
                0 <= i < self.memories@.len() ==> (#[trigger] self.memories@[i]@.id)
                    < self.next_id,
    {
    }

    /// Append a record. The importance comes from the scorer reply (the
    /// middle value when the call failed), the embedding from the embedding
    /// call (empty when it failed); both degrade rather than block capture.
    pub fn add(
        &mut self,
        content: &str,
        kind: &str,
        depth: i32,
        references: Vec<u32>,
        importance_reply: Option<&str>,
        embedding: Option<Vec<i64>>,
        timestamp: String,
    ) -> (r: Memory)
        requires
            old(self).wf(),
            old(self).next_id < u32::MAX - 1,
            old(self).importance_sum <= u64::MAX - 10,
            match embedding {
                Some(e) => embedding_ok(e@),
                None => true,
            },
        ensures
            final(self).wf(),
            r@.id == old(self).next_id,
            r@.timestamp == timestamp@,
            r@.kind == kind@,
            r@.content == content@,
            r@.importance == match importance_reply {
                Some(reply) => importance_of_reply(reply.spec_bytes()),
                None => 5,
            },
            r@.depth == depth,
            r@.references == references@,
            r@.embedding == match embedding {
                Some(e) => e@,
                None => Seq::<i64>::empty(),
            },
            memory_wf(r@),
            final(self).memories@.len() == old(self).memories@.len() + 1,
            final(self).memories@[old(self).memories@.len() as int]@ == r@,
            forall|i: int|
                0 <= i < old(self).memories@.len() ==> final(self).memories@[i] == old(
                    self,
                ).memories@[i],
            final(self).next_id == old(self).next_id + 1,
            final(self).importance_sum == old(self).importance_sum + r@.importance,
            final(self).retention == old(self).retention,
            final(self).reflection_threshold == old(self).reflection_threshold,
            final(self).retrieval_count == old(self).retrieval_count,
    {
        let importance = match importance_reply {
            Some(reply) => parse_importance(reply),
            None => 5,
        };
        let emb: Vec<i64> = match embedding {
            Some(e) => e,
            None => Vec::new(),
        };
        let entry = Memory {
            id: self.next_id,
            timestamp,
            kind: kind.to_owned(),
            content: content.to_owned(),
            importance,
            depth,
            references,
            embedding: emb,
        };
        let copy = clone_memory(&entry);
        self.memories.push(entry);
        self.next_id = self.next_id + 1;
        self.importance_sum = self.importance_sum + importance as u64;
        copy
    }
}

/// Copy a record field for field.
pub fn clone_memory(m: &Memory) -> (r: Memory)
    ensures
        r@ == m@,
{
    let mut references: Vec<u32> = Vec::new();
    let mut i: usize = 0;
    while i < m.references.len()
        invariant
            i <= m.references@.len(),
            references@ == m.references@.subrange(0, i as int),
        decreases m.references@.len() - i,
    {
        references.push(m.references[i]);
        proof {
            assert(references@ =~= m.references@.subrange(0, i + 1));
        }
        i += 1;
    }
    let mut embedding: Vec<i64> = Vec::new();
    let mut j: usize = 0;
    while j < m.embedding.len()
        invariant
            j <= m.embedding@.len(),
            embedding@ == m.embedding@.subrange(0, j as int),
        decreases m.embedding@.len() - j,
    {
        embedding.push(m.embedding[j]);
        proof {
            assert(embedding@ =~= m.embedding@.subrange(0, j + 1));
        }
        j += 1;
    }
    proof {
        assert(references@ =~= m.references@);
        assert(embedding@ =~= m.embedding@);
    }
    Memory {
        id: m.id,
        timestamp: m.timestamp.as_str().to_owned(),
        kind: m.kind.as_str().to_owned(),
        content: m.content.as_str().to_owned(),
        importance: m.importance,
        depth: m.depth,
        references,
        embedding,
    }
}


// ---------------------------------------------------------------------------
// Loading the ledger
// ---------------------------------------------------------------------------

/// Where the line beginning at `i` ends (exclusive of the newline).
pub open spec fn line_end_at(d: Seq<u8>, i: int) -> int
    decreases d.len() - i,
    when 0 <= i <= d.len()
{
    if i == d.len() || d[i] == 10 {
        i
    } else {
        line_end_at(d, i + 1)
    }
}

pub proof fn lemma_line_end(d: Seq<u8>, i: int)
    requires
        0 <= i <= d.len(),
    ensures
        i <= line_end_at(d, i) <= d.len(),
    decreases d.len() - i,
{
    if !(i == d.len() || d[i] == 10) {
        lemma_line_end(d, i + 1);
    }
}

fn line_end_exec(d: &[u8], i: usize) -> (r: usize)
    requires
        i <= d@.len(),
    ensures
        r == line_end_at(d@, i as int),
        i <= r <= d@.len(),
    decreases d@.len() - i,
{
    proof {
        lemma_line_end(d@, i as int);
    }
    if i == d.len() || d[i] == 10 {
        i
    } else {
        line_end_exec(d, i + 1)
    }
}

/// The records a ledger byte string holds, line by line: each line is
/// trimmed and parsed; blank and corrupt lines are skipped, never fatal.
pub open spec fn ledger_records(d: Seq<u8>, i: int) -> Seq<MemModel>
    decreases d.len() - i,
    when 0 <= i <= d.len()
{
    if i >= d.len() {
        Seq::empty()
    } else {
        let e = line_end_at(d, i);
        proof {
            lemma_line_end(d, i);
        }
        let rest = if e < d.len() {
            ledger_records(d, e + 1)
        } else {
            Seq::empty()
        };
        match crate::ledger::parse_mem(crate::sandbox::cmd_trim(d.subrange(i, e))) {
            Some(m) => seq![m] + rest,
            None => rest,
        }
    }
}

/// The id allocator's value after loading a record list on top of `init`.
pub open spec fn next_id_after(init: u32, rs: Seq<MemModel>) -> u32
    decreases rs.len(),
{
    if rs.len() == 0 {
        init
    } else {
        let bump = if rs[0].id + 1 > init {
            (rs[0].id + 1) as u32
        } else {
            init
        };
        next_id_after(bump, rs.drop_first())
    }
}

impl MemoryStream {
    /// Load a whole ledger: every parseable line becomes a record, in file
    /// order, and the id allocator resumes above the highest id seen.
    pub fn load_ledger(&mut self, data: &[u8])
        requires
            old(self).wf(),
        ensures
            final(self).wf(),
            final(self).memories@.len() == old(self).memories@.len() + ledger_records(
                data@,
                0,
            ).len(),
            forall|j: int|
                0 <= j < old(self).memories@.len() ==> final(self).memories@[j] == old(
                    self,
                ).memories@[j],
            forall|j: int|
                0 <= j < ledger_records(data@, 0).len()
                    ==> (#[trigger] final(self).memories@[old(self).memories@.len() + j])@
                    == ledger_records(data@, 0)[j],
            final(self).next_id == next_id_after(old(self).next_id, ledger_records(data@, 0)),
            final(self).importance_sum == old(self).importance_sum,
            final(self).retention == old(self).retention,
            final(self).reflection_threshold == old(self).reflection_threshold,
            final(self).retrieval_count == old(self).retrieval_count,
    {
        let n = data.len();
        let base = self.memories.len();
        let mut i: usize = 0;
        let ghost mut done: Seq<MemModel> = Seq::empty();
        proof {
            assert(Seq::<MemModel>::empty() + ledger_records(data@, 0) =~= ledger_records(
                data@,
                0,
            ));
        }
        while i < n
            invariant
                i <= n,
                n == data@.len(),
                base == old(self).memories@.len(),
                self.wf(),
                self.memories@.len() == base + done.len(),
                forall|j: int| 0 <= j < base ==> self.memories@[j] == old(self).memories@[j],
                forall|j: int|
                    0 <= j < done.len() ==> (#[trigger] self.memories@[base + j])@ == done[j],
                ledger_records(data@, 0) == done + ledger_records(data@, i as int),
                next_id_after(old(self).next_id, ledger_records(data@, 0)) == next_id_after(
                    self.next_id,
                    ledger_records(data@, i as int),
                ),
                self.importance_sum == old(self).importance_sum,
                self.retention == old(self).retention,
                self.reflection_threshold == old(self).reflection_threshold,
                self.retrieval_count == old(self).retrieval_count,
            decreases n - i,
        {
            let e = line_end_exec(data, i);
            let line = vstd::slice::slice_subrange(data, i, e);
            let trimmed = crate::sandbox::trim_exec(line);
            let ghost recs_here = ledger_records(data@, i as int);
            let ghost rest = if e < n {
                ledger_records(data@, e + 1)
            } else {
                Seq::<MemModel>::empty()
            };
            match crate::ledger::parse_memory(trimmed) {
                Some(mem) => {
                    proof {
                        assert(recs_here == seq![mem@] + rest);
                        assert((seq![mem@] + rest)[0] == mem@);
                        assert((seq![mem@] + rest).drop_first() =~= rest);
                        assert(done + recs_here =~= done.push(mem@) + rest);
                    }
                    let bump = mem.id + 1;
                    self.memories.push(mem);
                    if bump > self.next_id {
                        self.next_id = bump;
                    }
                    proof {
                        done = done.push(mem@);
                    }
                },
                None => {
                    proof {
                        assert(recs_here == rest);
                    }
                },
            }
            if e == n {
                i = n;
                proof {
                    assert(ledger_records(data@, n as int) =~= Seq::<MemModel>::empty());
                    assert(done + Seq::<MemModel>::empty() =~= done);
                }
            } else {
                i = e + 1;
            }
        }
        proof {
            assert(ledger_records(data@, n as int) =~= Seq::<MemModel>::empty());
            assert(done + Seq::<MemModel>::empty() =~= done);
            assert(done == ledger_records(data@, 0));
        }
    }
}


// ---------------------------------------------------------------------------
// Retrieval
// ---------------------------------------------------------------------------

/// Pair `a` may stand before pair `b` in a retrieval ranking: higher score
/// first, original position breaking ties.
pub open spec fn pair_le(a: (i64, usize), b: (i64, usize)) -> bool {
    a.0 > b.0 || (a.0 == b.0 && a.1 <= b.1)
}

/// A descending ranking of (score, position) pairs.
pub open spec fn pairs_sorted(s: Seq<(i64, usize)>) -> bool {
    forall|i: int, j: int| 0 <= i < j < s.len() ==> pair_le(#[trigger] s[i], #[trigger] s[j])
}

/// Sort score pairs into ranking order by repeated selection of the best
/// remaining pair.
fn sort_pairs(v: Vec<(i64, usize)>) -> (r: Vec<(i64, usize)>)
    ensures
        r@.len() == v@.len(),
        r@.to_multiset() == v@.to_multiset(),
        pairs_sorted(r@),
{
    broadcast use vstd::seq_lib::group_to_multiset_ensures;
    broadcast use vstd::multiset::group_multiset_axioms;

    let mut rest = v;
    let mut out: Vec<(i64, usize)> = Vec::new();
    proof {
        assert(out@.to_multiset().add(rest@.to_multiset()) =~= v@.to_multiset());
    }
    while rest.len() > 0
        invariant
            out@.len() + rest@.len() == v@.len(),
            out@.to_multiset().add(rest@.to_multiset()) == v@.to_multiset(),
            pairs_sorted(out@),
            forall|i: int, j: int|
                0 <= i < out@.len() && 0 <= j < rest@.len() ==> pair_le(
                    #[trigger] out@[i],
                    #[trigger] rest@[j],
                ),
        decreases rest@.len(),
    {
        let mut best: usize = 0;
        let mut t: usize = 1;
        while t < rest.len()
            invariant
                1 <= t <= rest@.len(),
                best < t,
                forall|j: int| 0 <= j < t ==> pair_le(rest@[best as int], #[trigger] rest@[j]),
            decreases rest@.len() - t,
        {
            let (bs, bi) = rest[best];
            let (cs, ci) = rest[t];
            if cs > bs || (cs == bs && ci <= bi) {
                proof {
                    assert forall|j: int| 0 <= j < t + 1 implies pair_le(
                        rest@[t as int],
                        #[trigger] rest@[j],
                    ) by {
                        if j < t {
                            assert(pair_le(rest@[best as int], rest@[j]));
                        }
                    }
                }
                best = t;
            }
            t += 1;
        }
        let ghost old_rest = rest@;
        let ghost old_out = out@;
        let x = rest.remove(best);
        proof {
            old_rest.to_multiset_ensures();
            old_out.to_multiset_ensures();
            assert(x == old_rest[best as int]);
            assert(rest@ == old_rest.remove(best as int));
            assert(old_rest.contains(x)) by {
                assert(old_rest[best as int] == x);
            }
            assert(old_rest.remove(best as int).to_multiset() =~= old_rest.to_multiset().remove(
                x,
            ));
            assert(old_rest.to_multiset().count(x) > 0);
        }
        out.push(x);
        proof {
            assert(out@ == old_out.push(x));
            assert(out@.to_multiset() =~= old_out.to_multiset().insert(x));
            assert(out@.to_multiset().add(rest@.to_multiset()) =~= v@.to_multiset());
            assert forall|i: int, j: int|
                0 <= i < out@.len() && 0 <= j < rest@.len() implies pair_le(
                #[trigger] out@[i],
                #[trigger] rest@[j],
            ) by {
                let jj = if j < best { j } else { j + 1 };
                assert(rest@[j] == old_rest[jj]) by {
                    assert(rest@ == old_rest.remove(best as int));
                }
                assert(pair_le(x, old_rest[jj]));
                if i < old_out.len() {
                    assert(pair_le(old_out[i], old_rest[jj]));
                }
            }
            assert forall|i: int, j: int| 0 <= i < j < out@.len() implies pair_le(
                #[trigger] out@[i],
                #[trigger] out@[j],
            ) by {
                if j == out@.len() - 1 {
                    assert(pair_le(old_out[i], old_rest[best as int]));
                }
            }
        }
    }
    proof {
        assert(rest@.to_multiset() =~= vstd::multiset::Multiset::<(i64, usize)>::empty());
        assert(out@.to_multiset().add(vstd::multiset::Multiset::<(i64, usize)>::empty()) =~= out@.to_multiset());
    }
    out
}

/// `ord` ranks all of `mems` for retrieval: a permutation of the positions,
/// descending by score, earlier records first among ties.
pub open spec fn is_score_order(
    ord: Seq<int>,
    mems: Seq<Memory>,
    retention: u64,
    now: i64,
    q: Option<Seq<i64>>,
) -> bool {
    &&& ord.len() == mems.len()
    &&& forall|i: int| 0 <= i < ord.len() ==> 0 <= #[trigger] ord[i] < mems.len()
    &&& forall|i: int, j: int|
        0 <= i < j < ord.len() ==> #[trigger] ord[i] != #[trigger] ord[j]
    &&& forall|i: int, j: int|
        0 <= i < j < ord.len() ==> {
            let si = mem_score(retention, now, mems[#[trigger] ord[i]]@, q);
            let sj = mem_score(retention, now, mems[#[trigger] ord[j]]@, q);
            si > sj || (si == sj && ord[i] < ord[j])
        }
}

impl MemoryStream {
    /// Whether a retrieval would consult the stream at all: an empty stream
    /// returns empty without any embedding call being worth making.
    pub fn needs_query_embedding(&self) -> (r: bool)
        ensures
            r == (self.memories@.len() > 0),
    {
        self.memories.len() > 0
    }

    /// Rank every record by score and return the top `k` as indices.
    fn ranked_indices(&self, q: Option<&Vec<i64>>, now: i64, k: usize) -> (r: Vec<usize>)
        requires
            self.wf(),
            match q {
                Some(v) => embedding_ok(v@),
                None => true,
            },
        ensures
            r@.len() == if k <= self.memories@.len() {
                k as int
            } else {
                self.memories@.len() as int
            },
            exists|ord: Seq<int>|
                {
                    &&& #[trigger] is_score_order(
                        ord,
                        self.memories@,
                        self.retention,
                        now,
                        opt_view(q),
                    )
                    &&& forall|j: int| 0 <= j < r@.len() ==> #[trigger] r@[j] == ord[j]
                },
    {
        broadcast use vstd::seq_lib::group_to_multiset_ensures;
        broadcast use vstd::multiset::group_multiset_axioms;

        let n = self.memories.len();
        let mut pairs: Vec<(i64, usize)> = Vec::new();
        let mut i: usize = 0;
        while i < n
            invariant
                i <= n,
                n == self.memories@.len(),
                self.wf(),
                match q {
                    Some(v) => embedding_ok(v@),
                    None => true,
                },
                pairs@.len() == i,
                forall|j: int|
                    0 <= j < i ==> ((#[trigger] pairs@[j]).1 == j as usize && pairs@[j].0 as int
                        == mem_score(self.retention, now, self.memories@[j]@, opt_view(q))),
            decreases n - i,
        {
            let sc = memory_score(self.retention, now, &self.memories[i], q);
            pairs.push((sc, i));
            i += 1;
        }
        let sorted = sort_pairs(pairs);
        proof {
            pairs@.to_multiset_ensures();
            sorted@.to_multiset_ensures();
            assert(pairs@.no_duplicates()) by {
                assert forall|ii: int, jj: int|
                    0 <= ii < pairs@.len() && 0 <= jj < pairs@.len() && ii != jj implies pairs@[ii]
                    != pairs@[jj] by {
                    assert(pairs@[ii].1 == ii as usize && pairs@[jj].1 == jj as usize);
                }
            }
            pairs@.lemma_multiset_has_no_duplicates();
            assert forall|x: (i64, usize)|
                sorted@.to_multiset().contains(x) implies #[trigger] sorted@.to_multiset().count(
                x,
            ) == 1 by {
                assert(sorted@.to_multiset() == pairs@.to_multiset());
            }
            sorted@.lemma_multiset_has_no_duplicates_conv();
            assert forall|jj: int| 0 <= jj < sorted@.len() implies (0 <= (
            #[trigger] sorted@[jj]).1 < n && sorted@[jj].0 as int == mem_score(
                self.retention,
                now,
                self.memories@[sorted@[jj].1 as int]@,
                opt_view(q),
            )) by {
                assert(sorted@.contains(sorted@[jj]));
                assert(sorted@.to_multiset().count(sorted@[jj]) > 0);
                assert(pairs@.to_multiset().count(sorted@[jj]) > 0);
                assert(pairs@.contains(sorted@[jj]));
                let t = choose|t: int| 0 <= t < pairs@.len() && pairs@[t] == sorted@[jj];
                assert(pairs@[t].1 == t as usize);
            }
        }
        let ghost ord = Seq::new(n as nat, |j: int| sorted@[j].1 as int);
        proof {
            assert forall|ii: int, jj: int| 0 <= ii < jj < ord.len() implies #[trigger] ord[ii]
                != #[trigger] ord[jj] by {
                if sorted@[ii].1 == sorted@[jj].1 {
                    assert(sorted@[ii].0 as int == mem_score(
                        self.retention,
                        now,
                        self.memories@[sorted@[ii].1 as int]@,
                        opt_view(q),
                    ));
                    assert(sorted@[ii] == sorted@[jj]);
                    assert(sorted@[ii] != sorted@[jj]);
                }
            }
            assert forall|ii: int, jj: int| #![trigger ord[ii], ord[jj]] 0 <= ii < jj < ord.len()
                implies {
                let si = mem_score(self.retention, now, self.memories@[ord[ii]]@, opt_view(q));
                let sj = mem_score(self.retention, now, self.memories@[ord[jj]]@, opt_view(q));
                si > sj || (si == sj && ord[ii] < ord[jj])
            } by {
                assert(pair_le(sorted@[ii], sorted@[jj]));
                assert(ord[ii] != ord[jj]);
            }
            assert(is_score_order(ord, self.memories@, self.retention, now, opt_view(q)));
        }
        let count = if k <= n {
            k
        } else {
            n
        };
        let mut r: Vec<usize> = Vec::new();
        let mut j: usize = 0;
        while j < count
            invariant
                j <= count,
                count <= n,
                n == sorted@.len(),
                r@.len() == j,
                forall|t: int| 0 <= t < j ==> #[trigger] r@[t] == sorted@[t].1,
            decreases count - j,
        {
            let (_, idx) = sorted[j];
            r.push(idx);
            j += 1;
        }
        proof {
            assert(forall|t: int| 0 <= t < r@.len() ==> #[trigger] r@[t] == ord[t]);
        }
        r
    }

    /// Three-factor retrieval. With a query embedding, every record is
    /// scored as recency + importance + relevance and the best `top_k`
    /// (default: the configured count) are returned in rank order. With no
    /// query embedding (the embedding call failed), the most recent `top_k`
    /// are returned verbatim. An empty stream returns empty.
    pub fn retrieve(&self, query_embedding: Option<&Vec<i64>>, now: i64, top_k: Option<usize>) -> (
        r: Vec<&Memory>)
        requires
            self.wf(),
            match query_embedding {
                Some(v) => embedding_ok(v@),
                None => true,
            },
        ensures
            ({
                let n = self.memories@.len() as int;
                let k = if top_k is Some {
                    top_k->Some_0 as int
                } else {
                    self.retrieval_count as int
                };
                let kk = if k <= n {
                    k
                } else {
                    n
                };
                match query_embedding {
                    Some(qe) => {
                        &&& r@.len() == kk
                        &&& exists|ord: Seq<int>|
                            {
                                &&& #[trigger] is_score_order(
                                    ord,
                                    self.memories@,
                                    self.retention,
                                    now,
                                    Some(qe@),
                                )
                                &&& forall|j: int|
                                    0 <= j < kk ==> *(#[trigger] r@[j]) == self.memories@[ord[j]]
                            }
                    },
                    None => {
                        &&& r@.len() == kk
                        &&& forall|j: int|
                            0 <= j < kk ==> *(#[trigger] r@[j]) == self.memories@[n - kk + j]
                    },
                }
            }),
    {
        let n = self.memories.len();
        let k = match top_k {
            Some(v) => v,
            None => self.retrieval_count,
        };
        let count = if k <= n {
            k
        } else {
            n
        };
        match query_embedding {
            Some(qe) => {
                let idxs = self.ranked_indices(Some(qe), now, k);
                let mut r: Vec<&Memory> = Vec::new();
                let mut j: usize = 0;
                while j < idxs.len()
                    invariant
                        j <= idxs@.len(),
                        self.wf(),
                        forall|t: int|
                            0 <= t < idxs@.len() ==> 0 <= #[trigger] idxs@[t]
                                < self.memories@.len(),
                        r@.len() == j,
                        forall|t: int|
                            0 <= t < j ==> *(#[trigger] r@[t]) == self.memories@[idxs@[t] as int],
                    decreases idxs@.len() - j,
                {
                    let idx = idxs[j];
                    r.push(&self.memories[idx]);
                    j += 1;
                }
                r
            },
            None => {
                let mut r: Vec<&Memory> = Vec::new();
                let start = n - count;
                let mut j: usize = 0;
                while j < count
                    invariant
                        j <= count,
                        start + count == n,
                        n == self.memories@.len(),
                        r@.len() == j,
                        forall|t: int|
                            0 <= t < j ==> *(#[trigger] r@[t]) == self.memories@[start + t],
                    decreases count - j,
                {
                    r.push(&self.memories[start + j]);
                    j += 1;
                }
                r
            },
        }
    }

    /// Lightweight retrieval: identical scoring minus the relevance factor,
    /// so no embedding call is ever needed. The query text plays no part.
    pub fn retrieve_sync(&self, _query: &str, now: i64, top_k: Option<usize>) -> (r: Vec<
        &Memory,
    >)
        requires
            self.wf(),
        ensures
            ({
                let n = self.memories@.len() as int;
                let k = if top_k is Some {
                    top_k->Some_0 as int
                } else {
                    self.retrieval_count as int
                };
                let kk = if k <= n {
                    k
                } else {
                    n
                };
                &&& r@.len() == kk
                &&& exists|ord: Seq<int>|
                    {
                        &&& #[trigger] is_score_order(
                            ord,
                            self.memories@,
                            self.retention,
                            now,
                            None,
                        )
                        &&& forall|j: int|
                            0 <= j < kk ==> *(#[trigger] r@[j]) == self.memories@[ord[j]]
                    }
            }),
    {
        let n = self.memories.len();
        let k = match top_k {
            Some(v) => v,
            None => self.retrieval_count,
        };
        let idxs = self.ranked_indices(None, now, k);
        let mut r: Vec<&Memory> = Vec::new();
        let mut j: usize = 0;
        while j < idxs.len()
            invariant
                j <= idxs@.len(),
                self.wf(),
                forall|t: int|
                    0 <= t < idxs@.len() ==> 0 <= #[trigger] idxs@[t] < self.memories@.len(),
                r@.len() == j,
                forall|t: int|
                    0 <= t < j ==> *(#[trigger] r@[t]) == self.memories@[idxs@[t] as int],
            decreases idxs@.len() - j,
        {
            let idx = idxs[j];
            r.push(&self.memories[idx]);
            j += 1;
        }
        r
    }
}

impl MemoryStream {
    /// The most recent `n` records, optionally restricted to one kind, in
    /// append order.
    pub fn get_recent(&self, n: usize, kind: Option<&str>) -> (r: Vec<&Memory>)
        ensures
            r@.len() <= n,
            kind is None && n >= self.memories@.len() ==> r@.len() == self.memories@.len(),
            forall|t: int|
                0 <= t < r@.len() ==> match kind {
                    Some(k) => (*(#[trigger] r@[t]))@.kind == k@,
                    None => true,
                },
    {
        let total = self.memories.len();
        let mut matching: Vec<usize> = Vec::new();
        let mut i: usize = 0;
        while i < total
            invariant
                i <= total,
                total == self.memories@.len(),
                matching@.len() <= i,
                forall|t: int| 0 <= t < matching@.len() ==> (#[trigger] matching@[t]) < total,
                forall|t: int|
                    0 <= t < matching@.len() ==> match kind {
                        Some(k) => self.memories@[#[trigger] matching@[t] as int]@.kind == k@,
                        None => true,
                    },
                kind is None ==> matching@.len() == i,
            decreases total - i,
        {
            let keep = match kind {
                Some(k) => crate::strutil::str_eq(self.memories[i].kind.as_str(), k),
                None => true,
            };
            if keep {
                matching.push(i);
            }
            i += 1;
        }
        let mlen = matching.len();
        let count = if n <= mlen {
            n
        } else {
            mlen
        };
        let start = mlen - count;
        let mut r: Vec<&Memory> = Vec::new();
        let mut j: usize = 0;
        while j < count
            invariant
                j <= count,
                start + count == mlen,
                mlen == matching@.len(),
                total == self.memories@.len(),
                forall|t: int| 0 <= t < matching@.len() ==> (#[trigger] matching@[t]) < total,
                forall|t: int|
                    0 <= t < matching@.len() ==> match kind {
                        Some(k) => self.memories@[#[trigger] matching@[t] as int]@.kind == k@,
                        None => true,
                    },
                r@.len() == j,
                forall|t: int|
                    0 <= t < j ==> *(#[trigger] r@[t]) == self.memories@[matching@[start
                        + t] as int],
            decreases count - j,
        {
            let idx = matching[start + j];
            r.push(&self.memories[idx]);
            j += 1;
        }
        r
    }
}

/// Retrieval ordering: among two records with the same embedding and the
/// same importance, the one with the more recent (parsed) timestamp scores
/// strictly higher, as long as the newer one's recency has not decayed all
/// the way to zero.
pub proof fn lemma_recent_scores_higher(
    retention: u64,
    now: i64,
    m1: MemModel,
    m2: MemModel,
    q: Option<Seq<i64>>,
)
    requires
        retention < crate::score::SCORE_SCALE as u64,
        m1.embedding == m2.embedding,
        m1.importance == m2.importance,
        rfc3339_secs(m1.timestamp) is Some,
        rfc3339_secs(m2.timestamp) is Some,
        rfc3339_secs(m1.timestamp)->Some_0 > rfc3339_secs(m2.timestamp)->Some_0,
        rfc3339_secs(m1.timestamp)->Some_0 <= now,
        crate::score::recency_spec(retention, mem_age(now, m1.timestamp)) > 0,
    ensures
        mem_score(retention, now, m1, q) > mem_score(retention, now, m2, q),
{
    let a1 = mem_age(now, m1.timestamp);
    let a2 = mem_age(now, m2.timestamp);
    assert(a1 < a2);
    crate::score::lemma_newer_scores_higher(
        retention,
        a1,
        a2,
        m1.importance as int,
        mem_relevance(q, m1.embedding),
    );
}

} // verus!
