use vstd::prelude::*;

verus! {

/// An owned buffer that is either whole, or whose first `begin` bytes have
/// already been sent and must not be sent again.
pub enum BufOrSlice {
    Buf(Vec<u8>),
    Slice { buf: Vec<u8>, begin: usize },
}

impl BufOrSlice {
    /// The offset never passes the end of the buffer.
    pub open spec fn wf(&self) -> bool {
        match self {
            BufOrSlice::Buf(_) => true,
            BufOrSlice::Slice { buf, begin } => *begin <= buf@.len(),
        }
    }

    /// The whole underlying buffer, sent part included.
    pub open spec fn inner(&self) -> Seq<u8> {
        match self {
            BufOrSlice::Buf(b) => b@,
            BufOrSlice::Slice { buf, begin: _ } => buf@,
        }
    }

    /// How many leading bytes of the buffer are already sent.
    pub open spec fn offset(&self) -> nat {
        match self {
            BufOrSlice::Buf(_) => 0,
            BufOrSlice::Slice { buf: _, begin } => *begin as nat,
        }
    }

    /// The bytes still to be sent.
    pub open spec fn view(&self) -> Seq<u8> {
        self.inner().subrange(self.offset() as int, self.inner().len() as int)
    }

    /// The initialized bytes that a write of this value offers.
    pub fn bytes_init(&self) -> (r: usize)
        requires
            self.wf(),
        ensures
            r == self@.len(),
    {
        self.len()
    }

    /// Number of bytes still to be sent.
    pub fn len(&self) -> (r: usize)
        requires
            self.wf(),
        ensures
            r == self@.len(),
    {
        match self {
            BufOrSlice::Buf(b) => b.len(),
            BufOrSlice::Slice { buf, begin } => buf.len() - *begin,
        }
    }

    /// The offset at which the unsent bytes start in the underlying buffer.
    pub fn begin(&self) -> (r: usize)
        ensures
            r == self.offset(),
    {
        match self {
            BufOrSlice::Buf(_) => 0,
            BufOrSlice::Slice { buf: _, begin } => *begin,
        }
    }

    /// The bytes still to be sent, borrowed.
    pub fn as_slice(&self) -> (r: &[u8])
        requires
            self.wf(),
        ensures
            r@ == self@,
    {
        match self {
            BufOrSlice::Buf(b) => {
                let s = b.as_slice();
                assert(s@ =~= self@);
                s
            },
            BufOrSlice::Slice { buf, begin } => vstd::slice::slice_subrange(
                buf.as_slice(),
                *begin,
                buf.len(),
            ),
        }
    }

    /// Gives the underlying buffer back, sent part included.
    pub fn into_inner(self) -> (r: Vec<u8>)
        ensures
            r@ == self.inner(),
    {
        match self {
            BufOrSlice::Buf(b) => b,
            BufOrSlice::Slice { buf, begin: _ } => buf,
        }
    }

    /// Marks the first `n` unsent bytes as sent: a whole buffer becomes a
    /// slice, and the offset of a slice grows by `n`.
    pub fn consume(self, n: usize) -> (r: Self)
        requires
            self.wf(),
            n <= self@.len(),
        ensures
            r.wf(),
            r is Slice,
            r.inner() == self.inner(),
            r.offset() == self.offset() + n,
            r@ == self@.subrange(n as int, self@.len() as int),
    {
        match self {
            BufOrSlice::Buf(b) => BufOrSlice::Slice { buf: b, begin: n },
            BufOrSlice::Slice { buf, begin } => {
                let end = buf.len();
                assert(begin + n <= end);
                BufOrSlice::Slice { buf, begin: begin + n }
            },
        }
    }
}

/// The unsent bytes of each element of a list.
pub open spec fn views(list: Seq<BufOrSlice>) -> Seq<Seq<u8>> {
    list.map_values(|b: BufOrSlice| b@)
}

/// Every element of a list is well formed.
pub open spec fn all_wf(list: Seq<BufOrSlice>) -> bool {
    forall|i: int| 0 <= i < list.len() ==> #[trigger] list[i].wf()
}

/// What is left of a list of pending byte runs after `n` of its bytes were
/// sent: runs that `n` covers in full are dropped, the first one it covers
/// in part loses that part, and the runs after it are kept as they are.
pub open spec fn distribute_spec(vs: Seq<Seq<u8>>, n: nat) -> Seq<Seq<u8>>
    decreases vs.len(),
{
    if vs.len() == 0 {
        vs
    } else if n == 0 {
        vs
    } else if n >= vs[0].len() {
        distribute_spec(vs.drop_first(), (n - vs[0].len()) as nat)
    } else {
        seq![vs[0].subrange(n as int, vs[0].len() as int)] + vs.drop_first()
    }
}

/// Sending `n` bytes of a list of runs leaves exactly the bytes after the
/// first `n` of their concatenation.
pub proof fn lemma_distribute_flatten(vs: Seq<Seq<u8>>, n: nat)
    requires
        n <= vs.flatten().len(),
    ensures
        distribute_spec(vs, n).flatten() == vs.flatten().subrange(n as int, vs.flatten().len() as int),
    decreases vs.len(),
{
    if vs.len() == 0 {
        assert(vs.flatten().subrange(0, 0) =~= Seq::<u8>::empty());
    } else if n == 0 {
        assert(vs.flatten().subrange(0, vs.flatten().len() as int) =~= vs.flatten());
    } else if n >= vs[0].len() {
        let rest = vs.drop_first();
        assert(vs.flatten() == vs[0] + rest.flatten());
        lemma_distribute_flatten(rest, (n - vs[0].len()) as nat);
        assert(vs.flatten().subrange(n as int, vs.flatten().len() as int) =~= rest.flatten().subrange(
            (n - vs[0].len()) as int,
            rest.flatten().len() as int,
        ));
    } else {
        let rest = vs.drop_first();
        let head = vs[0].subrange(n as int, vs[0].len() as int);
        assert(vs.flatten() == vs[0] + rest.flatten());
        let out = seq![head] + rest;
        assert(out.drop_first() =~= rest);
        assert(out.flatten() == head + rest.flatten());
        assert(out.flatten() =~= vs.flatten().subrange(n as int, vs.flatten().len() as int));
    }
}

/// Drops what `n` sent bytes cover from the front of `list`, and records a
/// partly sent element as consumed up to where the bytes ran out.
pub fn distribute(list: Vec<BufOrSlice>, n: usize) -> (r: Vec<BufOrSlice>)
    requires
        all_wf(list@),
        n <= views(list@).flatten().len(),
    ensures
        all_wf(r@),
        views(r@) == distribute_spec(views(list@), n as nat),
        views(r@).flatten() == views(list@).flatten().subrange(
            n as int,
            views(list@).flatten().len() as int,
        ),
{
    proof {
        lemma_distribute_flatten(views(list@), n as nat);
    }
    let ghost goal = distribute_spec(views(list@), n as nat);
    let mut rest = list;
    let mut out: Vec<BufOrSlice> = Vec::new();
    let mut n = n;
    while rest.len() > 0
        invariant
            all_wf(rest@),
            all_wf(out@),
            views(out@) + distribute_spec(views(rest@), n as nat) == goal,
            n <= views(rest@).flatten().len(),
        decreases rest.len(),
    {
        let ghost vs = views(rest@);
        let ghost old_n = n;
        assert(vs.drop_first().flatten().len() + vs[0].len() == vs.flatten().len()) by {
            assert(vs.flatten() == vs.first() + vs.drop_first().flatten());
        }
        let ghost out_before = views(out@);
        let ghost rest_before = rest@;
        let item = rest.remove(0);
        assert(views(rest@) =~= vs.drop_first());
        assert(item.wf());
        assert(item@ == vs[0]);
        assert(all_wf(rest@)) by {
            assert forall|i: int| 0 <= i < rest@.len() implies #[trigger] rest@[i].wf() by {
                assert(rest@[i] == rest_before[i + 1]);
            }
        }
        if n == 0 {
            out.push(item);
            assert(views(out@) =~= out_before.push(vs[0]));
            assert(vs =~= seq![vs[0]] + vs.drop_first());
            assert(out_before + vs =~= out_before.push(vs[0]) + vs.drop_first());
        } else {
            let item_len = item.len();
            if n >= item_len {
                n = n - item_len;
            } else {
                let item = item.consume(n);
                n = 0;
                out.push(item);
                assert(views(out@) =~= out_before.push(vs[0].subrange(old_n as int, vs[0].len() as int)));
                assert(out_before + distribute_spec(vs, old_n as nat) =~= views(out@) + distribute_spec(views(rest@), 0));
            }
        }
    }
    out
}

} // verus!
