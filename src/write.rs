use vstd::prelude::*;

use crate::buf::{
    all_wf, distribute, distribute_spec, lemma_distribute_flatten, views, BufOrSlice,
};

verus! {

/// Why a chain of writes stopped before all bytes were sent.
pub enum WriteError<E> {
    /// A write reported 0 bytes while bytes were left: the sink makes no progress.
    WriteZero,
    /// The transport failed.
    Io(E),
}

/// Where a run of retries stands.
pub enum Status {
    Done,
    WriteZero,
    /// The reports ran out before the run came to an end.
    Pending,
}

/// Retry state of writing one buffer of `len` bytes in full.
pub struct WriteAll {
    pub len: usize,
    pub written: usize,
}

impl WriteAll {
    pub open spec fn wf(&self) -> bool {
        self.written <= self.len
    }

    /// The state after a write that reported `n > 0` bytes: a sink never
    /// sends more than it was offered, so a larger report ends the run.
    pub open spec fn step_spec(self, n: nat) -> WriteAll {
        if self.written + n >= self.len {
            WriteAll { len: self.len, written: self.len }
        } else {
            WriteAll { len: self.len, written: (self.written + n) as usize }
        }
    }

    /// Starts writing a buffer of `len` bytes.
    pub fn new(len: usize) -> (r: WriteAll)
        ensures
            r.wf(),
            r.len == len,
            r.written == 0,
    {
        WriteAll { len, written: 0 }
    }

    /// Whether the whole buffer has been sent.
    pub fn is_done(&self) -> (r: bool)
        requires
            self.wf(),
        ensures
            r == (self.written == self.len),
    {
        self.written == self.len
    }

    /// The range of the buffer that the next write offers: the unsent suffix.
    pub fn next_range(&self) -> (r: (usize, usize))
        requires
            self.wf(),
        ensures
            r == (self.written, self.len),
    {
        (self.written, self.len)
    }

    /// Takes in what a write of the unsent suffix returned.
    pub fn on_write<E>(&mut self, res: Result<usize, E>) -> (r: Result<(), WriteError<E>>)
        requires
            old(self).wf(),
            old(self).written < old(self).len,
        ensures
            final(self).wf(),
            match res {
                Err(e) => r == Err::<(), WriteError<E>>(WriteError::Io(e)) && *final(self) == *old(
                    self,
                ),
                Ok(n) => if n == 0 {
                    r == Err::<(), WriteError<E>>(WriteError::WriteZero) && *final(self) == *old(
                        self,
                    )
                } else {
                    r == Ok::<(), WriteError<E>>(()) && *final(self) == old(self).step_spec(
                        n as nat,
                    )
                },
            },
    {
        match res {
            Err(e) => Err(WriteError::Io(e)),
            Ok(n) => {
                if n == 0 {
                    Err(WriteError::WriteZero)
                } else {
                    if n >= self.len - self.written {
                        self.written = self.len;
                    } else {
                        self.written = self.written + n;
                    }
                    Ok(())
                }
            },
        }
    }
}

/// Drives a write-all run against a sink that reports `reports[i]` bytes on
/// its `i`-th call: the final state and how the run ended.
pub open spec fn drive_write_all(st: WriteAll, reports: Seq<nat>) -> (WriteAll, Status)
    decreases reports.len(),
{
    if st.written >= st.len {
        (st, Status::Done)
    } else if reports.len() == 0 {
        (st, Status::Pending)
    } else if reports[0] == 0 {
        (st, Status::WriteZero)
    } else {
        drive_write_all(st.step_spec(reports[0]), reports.drop_first())
    }
}

/// The bytes that such a sink receives when each call takes a prefix of
/// the unsent suffix of `buf`, of the size it reports.
pub open spec fn delivered_write_all(buf: Seq<u8>, st: WriteAll, reports: Seq<nat>) -> Seq<u8>
    decreases reports.len(),
{
    if st.written >= st.len || reports.len() == 0 || reports[0] == 0 {
        Seq::empty()
    } else {
        let next = st.step_spec(reports[0]);
        buf.subrange(st.written as int, next.written as int) + delivered_write_all(
            buf,
            next,
            reports.drop_first(),
        )
    }
}

/// Writing a buffer in full delivers exactly its bytes, in order, up to
/// where the run stopped; the run fails only on a call that made no
/// progress; and when every call makes progress, as many calls as the
/// buffer has bytes are enough to send it all.
pub proof fn lemma_write_all_delivers(buf: Seq<u8>, st: WriteAll, reports: Seq<nat>)
    requires
        st.wf(),
        st.len == buf.len(),
    ensures
        buf.subrange(0, st.written as int) + delivered_write_all(buf, st, reports)
            == buf.subrange(0, drive_write_all(st, reports).0.written as int),
        drive_write_all(st, reports).0.wf(),
        drive_write_all(st, reports).1 is Done ==> drive_write_all(st, reports).0.written
            == buf.len(),
        drive_write_all(st, reports).1 is WriteZero ==> exists|i: int|
            0 <= i < reports.len() && reports[i] == 0,
        (forall|i: int| 0 <= i < reports.len() ==> reports[i] > 0) && reports.len() >= st.len
            - st.written ==> drive_write_all(st, reports).1 is Done,
    decreases reports.len(),
{
    if st.written >= st.len || reports.len() == 0 || reports[0] == 0 {
        assert(buf.subrange(0, st.written as int) + Seq::<u8>::empty() =~= buf.subrange(
            0,
            st.written as int,
        ));
    } else {
        let next = st.step_spec(reports[0]);
        let tail = reports.drop_first();
        lemma_write_all_delivers(buf, next, tail);
        assert(buf.subrange(0, st.written as int) + buf.subrange(
            st.written as int,
            next.written as int,
        ) =~= buf.subrange(0, next.written as int));
        if drive_write_all(next, tail).1 is WriteZero {
            let i = choose|i: int| 0 <= i < tail.len() && tail[i] == 0;
            assert(reports[i + 1] == 0);
        }
    }
}

/// A sink that reports 0 bytes on its first call ends a write of a
/// non-empty buffer with a write-zero failure at that call, with nothing
/// sent.
pub proof fn lemma_write_all_zero_sink(buf: Seq<u8>, reports: Seq<nat>)
    requires
        buf.len() > 0,
        buf.len() <= usize::MAX,
        reports.len() > 0,
        reports[0] == 0,
    ensures
        drive_write_all(WriteAll { len: buf.len() as usize, written: 0 }, reports).1 is WriteZero,
        delivered_write_all(buf, WriteAll { len: buf.len() as usize, written: 0 }, reports)
            == Seq::<u8>::empty(),
{
}

/// Decision state of a vectored write that sends a list of buffers one
/// after the other, each with a single write.
pub struct Writev {
    /// Length of each buffer of the list.
    pub lens: Vec<usize>,
    /// Index of the buffer that the next write sends.
    pub idx: usize,
    /// Bytes sent so far.
    pub total: usize,
}

/// What a vectored write does next.
pub enum WritevStep {
    /// Send the buffer at the new index.
    Next,
    /// Stop and report this many bytes sent; the caller gets every buffer back.
    Finished(usize),
}

impl Writev {
    pub open spec fn wf(&self) -> bool {
        &&& self.idx <= self.lens@.len()
        &&& self.total == sum_prefix(self.lens@, self.idx as int)
        &&& sum_prefix(self.lens@, self.lens@.len() as int) <= usize::MAX
    }

    /// Starts a vectored write of buffers of the given lengths.
    pub fn new(lens: Vec<usize>) -> (r: Writev)
        requires
            sum_prefix(lens@, lens@.len() as int) <= usize::MAX,
        ensures
            r.wf(),
            r.lens == lens,
            r.idx == 0,
            r.total == 0,
    {
        Writev { lens, idx: 0, total: 0 }
    }

    /// The first step: an empty list is sent at once with 0 bytes.
    pub fn start(&self) -> (r: WritevStep)
        requires
            self.wf(),
            self.idx == 0,
        ensures
            r == (if self.lens@.len() == 0 {
                WritevStep::Finished(0)
            } else {
                WritevStep::Next
            }),
    {
        if self.lens.len() == 0 {
            WritevStep::Finished(0)
        } else {
            WritevStep::Next
        }
    }

    /// Takes in what the write of the buffer at `idx` returned. A report
    /// larger than the buffer counts as the whole buffer.
    pub fn on_write<E>(&mut self, res: Result<usize, E>) -> (r: Result<WritevStep, WriteError<E>>)
        requires
            old(self).wf(),
            old(self).idx < old(self).lens@.len(),
        ensures
            final(self).wf(),
            final(self).lens == old(self).lens,
            ({
                let len = old(self).lens@[old(self).idx as int];
                match res {
                    Err(e) => r == Err::<WritevStep, WriteError<E>>(WriteError::Io(e)) && *final(self)
                        == *old(self),
                    Ok(n) => if n == 0 {
                        r == Err::<WritevStep, WriteError<E>>(WriteError::WriteZero) && *final(self)
                            == *old(self)
                    } else if n < len {
                        r == Ok::<WritevStep, WriteError<E>>(
                            WritevStep::Finished((old(self).total + n) as usize),
                        )
                    } else if old(self).idx + 1 == old(self).lens@.len() {
                        r == Ok::<WritevStep, WriteError<E>>(
                            WritevStep::Finished((old(self).total + len) as usize),
                        )
                    } else {
                        r == Ok::<WritevStep, WriteError<E>>(WritevStep::Next) && final(self).idx
                            == old(self).idx + 1 && final(self).total == old(self).total + len
                    },
                }
            }),
    {
        let len = self.lens[self.idx];
        proof {
            lemma_sum_prefix_mono(self.lens@, self.idx as int + 1, self.lens@.len() as int);
        }
        match res {
            Err(e) => Err(WriteError::Io(e)),
            Ok(n) => {
                if n == 0 {
                    Err(WriteError::WriteZero)
                } else if n < len {
                    Ok(WritevStep::Finished(self.total + n))
                } else if self.lens.len() - self.idx == 1 {
                    Ok(WritevStep::Finished(self.total + len))
                } else {
                    self.total = self.total + len;
                    self.idx = self.idx + 1;
                    Ok(WritevStep::Next)
                }
            },
        }
    }
}

/// Sum of the first `k` lengths.
pub open spec fn sum_prefix(lens: Seq<usize>, k: int) -> nat
    decreases k,
{
    if k <= 0 {
        0
    } else {
        sum_prefix(lens, k - 1) + lens[k - 1] as nat
    }
}

proof fn lemma_sum_prefix_mono(lens: Seq<usize>, j: int, k: int)
    requires
        0 <= j <= k,
    ensures
        sum_prefix(lens, j) <= sum_prefix(lens, k),
    decreases k - j,
{
    if j < k {
        lemma_sum_prefix_mono(lens, j, k - 1);
    }
}

/// Wraps each buffer as a whole, unsent buffer.
pub fn wrap_all(bufs: Vec<Vec<u8>>) -> (r: Vec<BufOrSlice>)
    ensures
        all_wf(r@),
        views(r@) == bufs@.map_values(|b: Vec<u8>| b@),
        forall|i: int| 0 <= i < r@.len() ==> #[trigger] r@[i] is Buf,
{
    let mut out: Vec<BufOrSlice> = Vec::new();
    let mut rest = bufs;
    let ghost all = bufs@;
    while rest.len() > 0
        invariant
            all_wf(out@),
            forall|i: int| 0 <= i < out@.len() ==> #[trigger] out@[i] is Buf,
            views(out@) + rest@.map_values(|b: Vec<u8>| b@) == all.map_values(|b: Vec<u8>| b@),
        decreases rest.len(),
    {
        let ghost before = rest@;
        let ghost out_before = views(out@);
        let b = rest.remove(0);
        let item = BufOrSlice::Buf(b);
        assert(item@ =~= b@);
        out.push(item);
        assert(views(out@) =~= out_before.push(b@));
        assert(before.map_values(|b: Vec<u8>| b@) =~= seq![b@] + rest@.map_values(
            |b: Vec<u8>| b@,
        ));
        assert(out_before + before.map_values(|b: Vec<u8>| b@) =~= views(out@) + rest@.map_values(
            |b: Vec<u8>| b@,
        ));
    }
    assert(rest@.map_values(|b: Vec<u8>| b@) =~= Seq::<Seq<u8>>::empty());
    assert(views(out@) =~= all.map_values(|b: Vec<u8>| b@));
    out
}

/// Number of bytes still to be sent over a whole list.
pub fn pending_len(list: &Vec<BufOrSlice>) -> (r: Option<usize>)
    requires
        all_wf(list@),
    ensures
        match r {
            Some(n) => n == views(list@).flatten().len(),
            None => views(list@).flatten().len() > usize::MAX,
        },
{
    let mut total: usize = 0;
    let mut i: usize = 0;
    while i < list.len()
        invariant
            all_wf(list@),
            i <= list@.len(),
            total == views(list@.subrange(0, i as int)).flatten().len(),
        decreases list@.len() - i,
    {
        let ghost vs = views(list@.subrange(0, i as int));
        let len = list[i].len();
        assert(views(list@.subrange(0, i + 1)) =~= vs.push(list@[i as int]@));
        proof {
            vs.lemma_flatten_push(list@[i as int]@);
        }
        if len > usize::MAX - total {
            proof {
                lemma_flatten_prefix_le(views(list@), i as int + 1);
                assert(views(list@.subrange(0, i + 1)) =~= views(list@).subrange(0, i + 1));
            }
            return None;
        }
        total = total + len;
        i = i + 1;
    }
    assert(list@.subrange(0, i as int) =~= list@);
    Some(total)
}

proof fn lemma_flatten_prefix_le(vs: Seq<Seq<u8>>, k: int)
    requires
        0 <= k <= vs.len(),
    ensures
        vs.subrange(0, k).flatten().len() <= vs.flatten().len(),
{
    assert(vs =~= vs.subrange(0, k) + vs.subrange(k, vs.len() as int));
    vstd::seq_lib::lemma_flatten_concat(vs.subrange(0, k), vs.subrange(k, vs.len() as int));
}

/// Takes in what a vectored write of `list` returned, together with the
/// list given back: drops what was sent and keeps the rest for the next
/// round. A report of 0 bytes is a write-zero failure.
pub fn after_writev<E>(res: Result<usize, E>, list: Vec<BufOrSlice>) -> (r: Result<
    Vec<BufOrSlice>,
    WriteError<E>,
>)
    requires
        all_wf(list@),
        res matches Ok(n) ==> n <= views(list@).flatten().len(),
    ensures
        match res {
            Err(e) => r == Err::<Vec<BufOrSlice>, WriteError<E>>(WriteError::Io(e)),
            Ok(n) => if n == 0 {
                r == Err::<Vec<BufOrSlice>, WriteError<E>>(WriteError::WriteZero)
            } else {
                r matches Ok(rest) && all_wf(rest@) && views(rest@) == distribute_spec(
                    views(list@),
                    n as nat,
                )
            },
        },
{
    match res {
        Err(e) => Err(WriteError::Io(e)),
        Ok(n) => {
            if n == 0 {
                Err(WriteError::WriteZero)
            } else {
                Ok(distribute(list, n))
            }
        },
    }
}

/// Drives a vectored write-all run against a sink that sends, in round
/// `i`, the first `reports[i]` bytes of what it is offered (all of them if
/// it reports more): what is left, what the sink received, and how it ended.
pub open spec fn drive_writev_all(vs: Seq<Seq<u8>>, reports: Seq<nat>) -> (Seq<Seq<u8>>, Seq<u8>, Status)
    decreases reports.len(),
{
    if vs.len() == 0 {
        (vs, Seq::empty(), Status::Done)
    } else if reports.len() == 0 {
        (vs, Seq::empty(), Status::Pending)
    } else {
        let n = if reports[0] <= vs.flatten().len() {
            reports[0]
        } else {
            vs.flatten().len()
        };
        if n == 0 {
            (vs, Seq::empty(), Status::WriteZero)
        } else {
            let next = drive_writev_all(distribute_spec(vs, n), reports.drop_first());
            (next.0, vs.flatten().subrange(0, n as int) + next.1, next.2)
        }
    }
}

/// Every run in the list holds at least one byte.
pub open spec fn all_nonempty(vs: Seq<Seq<u8>>) -> bool {
    forall|i: int| 0 <= i < vs.len() ==> #[trigger] vs[i].len() > 0
}

proof fn lemma_distribute_nonempty(vs: Seq<Seq<u8>>, n: nat)
    requires
        all_nonempty(vs),
    ensures
        all_nonempty(distribute_spec(vs, n)),
        distribute_spec(vs, n).len() <= vs.len(),
    decreases vs.len(),
{
    if vs.len() > 0 && n > 0 {
        if n >= vs[0].len() {
            lemma_distribute_nonempty(vs.drop_first(), (n - vs[0].len()) as nat);
        } else {
            let out = distribute_spec(vs, n);
            assert forall|i: int| 0 <= i < out.len() implies #[trigger] out[i].len() > 0 by {
                if i > 0 {
                    assert(out[i] == vs[i]);
                }
            }
        }
    }
}

proof fn lemma_flatten_nonempty(vs: Seq<Seq<u8>>)
    requires
        all_nonempty(vs),
    ensures
        vs.flatten().len() >= vs.len(),
    decreases vs.len(),
{
    if vs.len() > 0 {
        assert(all_nonempty(vs.drop_first()));
        lemma_flatten_nonempty(vs.drop_first());
    }
}

/// A vectored write-all run delivers the bytes of all buffers in order:
/// what the sink received followed by what is left is their concatenation;
/// when it ends well the sink received all of it; it fails only on a
/// round that made no progress; and over buffers that each hold a byte, a
/// sink that makes progress in each round is done within as many rounds as
/// there are bytes.
pub proof fn lemma_writev_all_delivers(vs: Seq<Seq<u8>>, reports: Seq<nat>)
    ensures
        drive_writev_all(vs, reports).1 + drive_writev_all(vs, reports).0.flatten()
            == vs.flatten(),
        drive_writev_all(vs, reports).2 is Done ==> drive_writev_all(vs, reports).1
            == vs.flatten(),
        all_nonempty(vs) && drive_writev_all(vs, reports).2 is WriteZero ==> exists|i: int|
            0 <= i < reports.len() && reports[i] == 0,
        all_nonempty(vs) && (forall|i: int| 0 <= i < reports.len() ==> reports[i] > 0)
            && reports.len() >= vs.flatten().len() ==> drive_writev_all(vs, reports).2 is Done,
    decreases reports.len(),
{
    if vs.len() == 0 {
        assert(vs.flatten() =~= Seq::<u8>::empty());
        assert(Seq::<u8>::empty() + vs.flatten() =~= vs.flatten());
    } else if reports.len() == 0 {
        assert(Seq::<u8>::empty() + vs.flatten() =~= vs.flatten());
    } else {
        let total = vs.flatten().len();
        let n = if reports[0] <= total {
            reports[0]
        } else {
            total
        };
        if n == 0 {
            assert(Seq::<u8>::empty() + vs.flatten() =~= vs.flatten());
            if all_nonempty(vs) {
                lemma_flatten_nonempty(vs);
            }
        } else {
            let tail = reports.drop_first();
            let rest = distribute_spec(vs, n);
            lemma_distribute_flatten(vs, n);
            lemma_writev_all_delivers(rest, tail);
            let next = drive_writev_all(rest, tail);
            assert(vs.flatten().subrange(0, n as int) + rest.flatten() =~= vs.flatten());
            assert(vs.flatten().subrange(0, n as int) + next.1 + next.0.flatten() =~= vs.flatten());
            if all_nonempty(vs) {
                lemma_distribute_nonempty(vs, n);
            }
            if all_nonempty(vs) && next.2 is WriteZero {
                let i = choose|i: int| 0 <= i < tail.len() && tail[i] == 0;
                assert(reports[i + 1] == 0);
            }
            if all_nonempty(vs) && (forall|i: int| 0 <= i < reports.len() ==> reports[i] > 0)
                && reports.len() >= total {
                lemma_distribute_nonempty(vs, n);
                assert forall|i: int| 0 <= i < tail.len() implies tail[i] > 0 by {
                    assert(tail[i] == reports[i + 1]);
                }
            }
        }
    }
}

} // verus!
