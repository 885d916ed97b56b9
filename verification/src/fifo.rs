//! A byte queue of fixed capacity, first in, first out.

use vstd::prelude::*;

verus! {

/// FIFO queue for caching bytes read.
pub struct Fifo<const CAP: usize> {
    buf: [u8; CAP],
    head: usize,
    num: usize,
}

impl<const CAP: usize> View for Fifo<CAP> {
    type V = Seq<u8>;

    /// The queued bytes, oldest first.
    closed spec fn view(&self) -> Seq<u8> {
        Seq::new(self.num as nat, |i: int| self.buf@[(self.head + i) % (CAP as int)])
    }
}

impl<const CAP: usize> Fifo<CAP> {
    /// The bytes lie in a ring within the buffer.
    pub closed spec fn wf(&self) -> bool {
        &&& self.num <= CAP
        &&& self.head < CAP || (CAP == 0 && self.head == 0)
    }

    /// A well-formed queue never holds more than its capacity.
    pub proof fn lemma_len_bounded(&self)
        requires
            self.wf(),
        ensures
            self@.len() <= CAP,
    {
    }

    /// An empty queue.
    pub fn new() -> (fifo: Self)
        ensures
            fifo.wf(),
            fifo@ == Seq::<u8>::empty(),
    {
        let fifo = Self { buf: [0;CAP], head: 0, num: 0 };
        assert(fifo@ =~= Seq::<u8>::empty());
        fifo
    }

    /// Whether nothing is queued.
    pub fn is_empty(&self) -> (r: bool)
        requires
            self.wf(),
        ensures
            r == (self@.len() == 0),
    {
        self.num == 0
    }

    /// Whether there is no room for another byte.
    pub fn is_full(&self) -> (r: bool)
        requires
            self.wf(),
        ensures
            r == (self@.len() == CAP),
            self@.len() <= CAP,
    {
        self.num == CAP
    }

    /// Queues `value` behind the bytes already there. A full queue takes no
    /// byte, and nothing is done about one pushed all the same: whoever
    /// pushes has seen `is_full` answer no.
    pub fn push(&mut self, value: u8)
        requires
            old(self).wf(),
            old(self)@.len() < CAP,
        ensures
            final(self).wf(),
            final(self)@ == old(self)@.push(value),
    {
        let room: usize = CAP - self.head;
        let at: usize = if self.num < room {
            self.head + self.num
        } else {
            self.num - room
        };
        assert(at == (self.head + self.num) % (CAP as int)) by {
            lemma_ring_index(self.head as int, self.num as int, CAP as int);
        }
        self.buf[at] = value;
        self.num += 1;
        proof {
            let pushed = old(self)@.push(value);
            assert forall|i: int| 0 <= i < self.num implies #[trigger] self@[i] == pushed[i] by {
                if i < self.num - 1 {
                    lemma_ring_distinct(self.head as int, i, self.num - 1, CAP as int);
                }
            }
            assert(self@ =~= old(self)@.push(value));
        }
    }

    /// Takes the oldest byte out of the queue.
    pub fn pop(&mut self) -> (value: u8)
        requires
            old(self).wf(),
            old(self)@.len() > 0,
        ensures
            final(self).wf(),
            value == old(self)@[0],
            final(self)@ == old(self)@.drop_first(),
    {
        assert(self.head == (self.head + 0) % (CAP as int)) by {
            lemma_ring_index(self.head as int, 0, CAP as int);
        }
        let ret = self.buf[self.head];
        self.head += 1;
        self.head %= CAP;
        self.num -= 1;
        proof {
            let rest = old(self)@.drop_first();
            assert forall|i: int| 0 <= i < self.num implies #[trigger] self@[i] == rest[i] by {
                lemma_ring_step(old(self).head as int, i, CAP as int);
            }
            assert(self@ =~= old(self)@.drop_first());
        }
        ret
    }
}

/// Where the byte `i` places behind the head lies in a ring of `cap` places.
proof fn lemma_ring_index(head: int, i: int, cap: int)
    requires
        0 <= head < cap,
        0 <= i < cap,
    ensures
        (head + i) % cap == if i < cap - head {
            head + i
        } else {
            i - (cap - head)
        },
{
    if i < cap - head {
        assert((head + i) % cap == head + i) by (nonlinear_arith)
            requires
                0 <= head + i < cap,
        ;
    } else {
        assert((head + i) % cap == head + i - cap) by (nonlinear_arith)
            requires
                cap <= head + i < 2 * cap,
        ;
    }
}

/// Two bytes at different distances behind the head lie in different places.
proof fn lemma_ring_distinct(head: int, i: int, j: int, cap: int)
    requires
        0 <= head < cap,
        0 <= i < j < cap,
    ensures
        (head + i) % cap != (head + j) % cap,
{
    lemma_ring_index(head, i, cap);
    lemma_ring_index(head, j, cap);
}

/// Moving the head one place on brings every byte one place nearer.
proof fn lemma_ring_step(head: int, i: int, cap: int)
    requires
        0 <= head < cap,
        0 <= i < cap - 1,
    ensures
        ((head + 1) % cap + i) % cap == (head + (i + 1)) % cap,
{
    lemma_ring_index(head, 1, cap);
    lemma_ring_index(head, i + 1, cap);
    lemma_ring_index((head + 1) % cap, i, cap);
}

/// The queue after `bytes` were pushed onto `queue`, one after the other.
pub open spec fn pushed_all(queue: Seq<u8>, bytes: Seq<u8>) -> Seq<u8>
    decreases bytes.len(),
{
    if bytes.len() == 0 {
        queue
    } else {
        pushed_all(queue.push(bytes.first()), bytes.drop_first())
    }
}

/// The bytes that `n` pops take out of `queue`, in the order they come, and
/// the queue that is left.
pub open spec fn popped(queue: Seq<u8>, n: nat) -> (Seq<u8>, Seq<u8>)
    decreases n,
{
    if n == 0 {
        (Seq::empty(), queue)
    } else {
        let (out, rest) = popped(queue.drop_first(), (n - 1) as nat);
        (seq![queue[0]] + out, rest)
    }
}

/// Pushing bytes puts them behind the queue in their order.
pub proof fn lemma_pushed_all(queue: Seq<u8>, bytes: Seq<u8>)
    ensures
        pushed_all(queue, bytes) == queue + bytes,
    decreases bytes.len(),
{
    if bytes.len() == 0 {
        assert(queue + bytes =~= queue);
    } else {
        lemma_pushed_all(queue.push(bytes.first()), bytes.drop_first());
        assert(queue.push(bytes.first()) + bytes.drop_first() =~= queue + bytes);
    }
}

/// `n` pops take the first `n` bytes of the queue, in their order.
pub proof fn lemma_popped(queue: Seq<u8>, n: nat)
    requires
        n <= queue.len(),
    ensures
        popped(queue, n) == (queue.take(n as int), queue.skip(n as int)),
    decreases n,
{
    if n == 0 {
        assert(queue.take(0) =~= Seq::<u8>::empty());
        assert(queue.skip(0) =~= queue);
    } else {
        lemma_popped(queue.drop_first(), (n - 1) as nat);
        assert(seq![queue[0]] + queue.drop_first().take(n - 1) =~= queue.take(n as int));
        assert(queue.drop_first().skip(n - 1) =~= queue.skip(n as int));
    }
}

/// Bytes pushed into an empty queue come out in the order they went in, and
/// leave the queue empty.
pub proof fn lemma_first_in_first_out(bytes: Seq<u8>)
    ensures
        popped(pushed_all(Seq::empty(), bytes), bytes.len()) == (bytes, Seq::<u8>::empty()),
{
    lemma_pushed_all(Seq::empty(), bytes);
    assert(Seq::<u8>::empty() + bytes =~= bytes);
    lemma_popped(bytes, bytes.len());
    assert(bytes.take(bytes.len() as int) =~= bytes);
    assert(bytes.skip(bytes.len() as int) =~= Seq::<u8>::empty());
}

} // verus!
