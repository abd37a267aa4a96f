use vstd::arithmetic::div_mod;
use vstd::prelude::*;

use crate::error::Error;
use crate::ffi::{netmap_ring, netmap_slot};
use crate::frame::Frame;

verus! {

/// The `ioctl` request that hands packets to send over to the kernel.
pub const NIOCTXSYNC: u64 = 0x6994;

/// The `ioctl` request that fetches received packets from the kernel.
pub const NIOCRXSYNC: u64 = 0x6995;

/// A call on the file descriptor of an interface that synchronises its rings.
#[derive(Clone, Copy, Debug, PartialEq, Eq, Structural)]
pub enum SyncCall {
    /// `poll` until there is room to send, for so many milliseconds at most.
    PollOut { timeout_ms: i32 },
    /// `ioctl` with this request and the argument zero.
    TxSync { request: u64 },
    /// `ioctl` with this request.
    RxSync { request: u64 },
}

impl SyncCall {
    /// Whether a call that returned `ret` is to be reported as failed; `interrupted` says that
    /// the error was the interruption by a signal, after which sending just goes on.
    pub fn is_failure(&self, ret: i32, interrupted: bool) -> (yes: bool)
        ensures
            yes == (ret < 0 && !(self is TxSync && interrupted)),
    {
        match self {
            SyncCall::TxSync { request: _ } => ret < 0 && !interrupted,
            _ => ret < 0,
        }
    }
}

/// A ring as it lies in shared memory: its address, its header and the slots behind it.
#[derive(Debug)]
pub struct RingBlock {
    pub addr: usize,
    pub header: netmap_ring,
    pub slot: Vec<netmap_slot>,
}

/// The contents of a [`RingBlock`].
#[verifier::ext_equal]
pub struct BlockView {
    pub addr: usize,
    pub header: netmap_ring,
    pub slot: Seq<netmap_slot>,
}

impl View for RingBlock {
    type V = BlockView;

    open spec fn view(&self) -> BlockView {
        BlockView { addr: self.addr, header: self.header, slot: self.slot@ }
    }
}

impl BlockView {
    /// Address of the buffer that slot `i` refers to.
    pub open spec fn buf_addr(self, i: int) -> int {
        self.addr + self.header.buf_ofs + self.slot[i].buf_idx * self.header.nr_buf_size
    }

    /// The first `len` bytes of the buffer of slot `i` lie within the `size` bytes at `base`.
    pub open spec fn buf_within(self, i: int, len: int, base: usize, size: nat) -> bool {
        base <= self.buf_addr(i) && self.buf_addr(i) + len <= base + size
    }

    /// The ring is laid out as netmap promises: the three positions name slots of the ring,
    /// and the buffer of every slot lies within the `size` bytes at `base`.
    pub open spec fn wf(self, base: usize, size: nat) -> bool {
        &&& self.slot.len() == self.header.num_slots
        &&& self.header.head < self.header.num_slots
        &&& self.header.cur < self.header.num_slots
        &&& self.header.tail < self.header.num_slots
        &&& 0 < base
        &&& base + size <= usize::MAX
        &&& forall|i: int| #![trigger self.slot[i]] 0 <= i < self.slot.len() ==> self.buf_within(
            i,
            self.header.nr_buf_size as int,
            base,
            size,
        )
    }

    /// Every packet that waits between `head` and `tail` lies within the `size` bytes at `base`.
    pub open spec fn packets_within(self, base: usize, size: nat) -> bool {
        forall|k: int|
            #![trigger self.slot_at(self.header.head as int, k)]
            0 <= k < self.ready_slots() ==> self.packet_within(
                self.slot_at(self.header.head as int, k),
                base,
                size,
            )
    }

    /// The packet in slot `i` lies within the `size` bytes at `base`.
    pub open spec fn packet_within(self, i: int, base: usize, size: nat) -> bool {
        self.buf_within(i, self.slot[i].len as int, base, size)
    }

    /// The packet in slot `i`, where `mem` is the memory at `base`.
    pub open spec fn packet(self, i: int, base: usize, mem: Seq<u8>) -> Seq<u8> {
        let pos = self.buf_addr(i) - base;
        mem.subrange(pos, pos + self.slot[i].len)
    }

    /// Slots between `tail` and `head`, counted in 32 bits.
    pub open spec fn used_slots(self) -> int {
        ((self.header.head - self.header.tail + self.header.num_slots) % 0x1_0000_0000)
            % (self.header.num_slots as int)
    }

    /// Slots that a batch can take: all but the used ones and one that stays empty.
    pub open spec fn free_slots(self) -> int {
        self.header.num_slots - 1 - self.used_slots()
    }

    /// Packets that wait between `head` and `tail`.
    pub open spec fn ready_slots(self) -> int {
        (self.header.tail - self.header.head) % (self.header.num_slots as int)
    }

    /// Packets that can be sent one by one before `cur` meets `tail`.
    pub open spec fn sendable_slots(self) -> int {
        (self.header.tail - self.header.cur) % (self.header.num_slots as int)
    }

    /// Slot `n` steps behind position `from`.
    pub open spec fn slot_at(self, from: int, n: int) -> int {
        (from + n) % (self.header.num_slots as int)
    }

    /// The ring with `head` and `cur` moved to `to`.
    pub open spec fn at(self, to: u32) -> BlockView {
        BlockView { header: netmap_ring { head: to, cur: to, ..self.header }, ..self }
    }

    /// The ring with `len` noted in slot `i`.
    pub open spec fn with_len(self, i: int, len: u16) -> BlockView {
        BlockView { slot: self.slot.update(i, netmap_slot { len, ..self.slot[i] }), ..self }
    }
}

impl RingBlock {
    /// Address of the buffer that slot `i` refers to.
    fn buf_addr(&self, i: usize) -> (addr: i128)
        requires
            i < self.slot@.len(),
        ensures
            addr == self@.buf_addr(i as int),
            -0x8000_0000_0000_0000 <= addr <= 0x4_0000_0000_0000_0000,
    {
        let slot: netmap_slot = self.slot[i];
        let size: u32 = self.header.nr_buf_size;
        assert(0 <= slot.buf_idx * size <= 0xffff_ffff * 0xffff_ffff) by (nonlinear_arith)
            requires
                slot.buf_idx <= 0xffff_ffff,
                size <= 0xffff_ffff,
        ;
        self.addr as i128 + self.header.buf_ofs as i128 + slot.buf_idx as i128 * size as i128
    }

    /// Whether the ring is well formed over the `size` bytes at `base`.
    pub fn is_valid(&self, base: usize, size: usize) -> (yes: bool)
        ensures
            yes == self@.wf(base, size as nat),
    {
        let h = &self.header;
        if self.slot.len() as u64 != h.num_slots as u64 {
            return false;
        }
        if h.head >= h.num_slots || h.cur >= h.num_slots || h.tail >= h.num_slots {
            return false;
        }
        if base == 0 || base as u128 + size as u128 > usize::MAX as u128 {
            return false;
        }
        let first: i128 = base as i128;
        let end: i128 = base as i128 + size as i128;
        let mut i: usize = 0;
        while i < self.slot.len()
            invariant
                i <= self.slot@.len(),
                h == &self.header,
                first == base,
                end == base + size,
                forall|k: int|
                    #![trigger self@.slot[k]]
                    0 <= k < i ==> self@.buf_within(k, h.nr_buf_size as int, base, size as nat),
            decreases self.slot@.len() - i,
        {
            let at: i128 = self.buf_addr(i);
            if at < first || at + h.nr_buf_size as i128 > end {
                assert(self@.slot[i as int] == self@.slot[i as int]);
                return false;
            }
            i += 1;
        }
        true
    }

    /// Number of packets that wait between `head` and `tail`.
    fn ready(&self) -> (count: usize)
        requires
            self.header.head < self.header.num_slots,
            self.header.tail < self.header.num_slots,
        ensures
            count == self@.ready_slots(),
            count < self.header.num_slots,
    {
        let head: u32 = self.header.head;
        let tail: u32 = self.header.tail;
        let num_slots: u32 = self.header.num_slots;
        proof {
            lemma_ready(head as int, tail as int, num_slots as int);
        }
        if head <= tail {
            (tail - head) as usize
        } else {
            (num_slots - head + tail) as usize
        }
    }

    /// Whether every packet that waits to be received lies within the `size` bytes at `base`.
    pub fn has_valid_packets(&self, base: usize, size: usize) -> (yes: bool)
        requires
            self@.wf(base, size as nat),
        ensures
            yes == self@.packets_within(base, size as nat),
    {
        let head: u64 = self.header.head as u64;
        let num_slots: u64 = self.header.num_slots as u64;
        let count: usize = self.ready();
        let first: i128 = base as i128;
        let end: i128 = base as i128 + size as i128;
        let mut k: usize = 0;
        while k < count
            invariant
                k <= count == self@.ready_slots(),
                count < num_slots,
                num_slots == self.header.num_slots == self.slot@.len(),
                head == self.header.head,
                first == base,
                end == base + size,
                forall|j: int|
                    #![trigger self@.slot_at(head as int, j)]
                    0 <= j < k ==> self@.packet_within(
                        self@.slot_at(head as int, j),
                        base,
                        size as nat,
                    ),
            decreases count - k,
        {
            let i: usize = ((head + k as u64) % num_slots) as usize;
            let at: i128 = self.buf_addr(i);
            let len: u16 = self.slot[i].len;
            if at < first || at + len as i128 > end {
                assert(self@.slot_at(head as int, k as int) == i);
                return false;
            }
            k += 1;
        }
        true
    }
}

/// `mem` with the `len` bytes at `pos` replaced by `data`.
pub open spec fn splice(mem: Seq<u8>, pos: int, len: int, data: Seq<u8>) -> Seq<u8> {
    mem.take(pos) + data + mem.skip(pos + len)
}

/// A length as the 16 bits of a slot hold it.
pub open spec fn slot_len(len: nat) -> u16 {
    (len % 0x1_0000) as u16
}

pub(crate) proof fn lemma_slot_len(len: usize)
    ensures
        len as u16 == slot_len(len as nat),
{
    assert(len as u16 == len % 0x1_0000) by (bit_vector);
}

/// The packet that has waited longest is the one in slot `head`.
pub(crate) proof fn lemma_first_packet(ring: BlockView, base: usize, size: nat)
    requires
        ring.header.head < ring.header.num_slots,
        ring.header.tail < ring.header.num_slots,
        ring.packets_within(base, size),
    ensures
        ring.header.head != ring.header.tail ==> {
            &&& ring.ready_slots() > 0
            &&& ring.packet_within(ring.header.head as int, base, size)
        },
{
    let head = ring.header.head as int;
    lemma_ready(head, ring.header.tail as int, ring.header.num_slots as int);
    div_mod::lemma_small_mod(head as nat, ring.header.num_slots as nat);
    assert(ring.slot_at(head, 0) == head);
}

/// Receiving `count` packets leaves the others within the memory.
pub(crate) proof fn lemma_packets_left(ring: BlockView, base: usize, size: nat, count: int)
    requires
        ring.header.head < ring.header.num_slots,
        ring.header.tail < ring.header.num_slots,
        ring.packets_within(base, size),
        0 <= count <= ring.ready_slots(),
    ensures
        ({
            let rest = ring.at(ring.slot_at(ring.header.head as int, count) as u32);
            &&& rest.packets_within(base, size)
            &&& rest.header.head != rest.header.tail ==> rest.packet_within(
                rest.header.head as int,
                base,
                size,
            )
        }),
{
    let n = ring.header.num_slots as int;
    let head = ring.header.head as int;
    let to = ring.slot_at(head, count);
    let rest = ring.at(to as u32);
    div_mod::lemma_mod_bound(head + count, n);
    crate::ring_laws::law_recv_takes_packets(ring, count);
    assert forall|k: int|
        #![trigger rest.slot_at(rest.header.head as int, k)]
        0 <= k < rest.ready_slots() implies rest.packet_within(
        rest.slot_at(rest.header.head as int, k),
        base,
        size,
    ) by {
        div_mod::lemma_add_mod_noop_right(k, head + count, n);
        assert(rest.slot_at(to, k) == ring.slot_at(head, count + k));
        assert(ring.packet_within(ring.slot_at(head, count + k), base, size));
    }
    lemma_first_packet(rest, base, size);
}

proof fn lemma_next(i: int, n: int)
    requires
        0 <= i < n,
    ensures
        (i + 1) % n == if i + 1 >= n { 0 } else { i + 1 },
{
    if i + 1 < n {
        div_mod::lemma_small_mod((i + 1) as nat, n as nat);
    } else {
        div_mod::lemma_mod_self_0(n);
    }
}

proof fn lemma_ready(head: int, tail: int, n: int)
    requires
        0 <= head < n,
        0 <= tail < n,
    ensures
        (tail - head) % n == if head <= tail { tail - head } else { n - head + tail },
{
    if head <= tail {
        div_mod::lemma_small_mod((tail - head) as nat, n as nat);
    } else {
        div_mod::lemma_mod_add_multiples_vanish(tail - head, n);
        div_mod::lemma_small_mod((n - head + tail) as nat, n as nat);
    }
}

/// A ring, for sending or receiving.
///
/// It borrows the ring itself and the memory that holds the packet buffers, which starts at
/// address `base`.
pub struct Ring<'a> {
    pub ring: &'a mut RingBlock,
    pub mem: &'a mut [u8],
    pub base: usize,
    pub index: usize,
}

/// A ring that packets are sent on.
pub struct TxRing<'a>(pub Ring<'a>);

impl<'a> Ring<'a> {
    pub open spec fn block(&self) -> BlockView {
        self.ring@
    }

    pub open spec fn bytes(&self) -> Seq<u8> {
        self.mem@
    }

    pub open spec fn wf(&self) -> bool {
        self.block().wf(self.base, self.bytes().len())
    }

    /// Ring number `index`, over a ring in memory and the memory of its buffers at `base`.
    pub fn new(ring: &'a mut RingBlock, mem: &'a mut [u8], base: usize, index: usize) -> (r: Self)
        ensures
            *r.ring == *old(ring),
            *final(r.ring) == *final(ring),
            r.mem@ == old(mem)@,
            final(r.mem)@ == final(mem)@,
            r.base == base,
            r.index == index,
    {
        Ring { ring, mem, base, index }
    }

    /// Every packet that waits to be received lies within the memory of the ring.
    pub open spec fn packets_within(&self) -> bool {
        self.block().packets_within(self.base, self.bytes().len())
    }

    /// The number of this ring among the rings of its interface.
    pub fn index(&self) -> (index: usize)
        ensures
            index == self.index,
    {
        self.index
    }

    /// The number of slots of this ring.
    pub fn num_slots(&self) -> (slots: usize)
        ensures
            slots == self.block().header.num_slots,
    {
        self.ring.header.num_slots as usize
    }

    /// Where the buffer of slot `i` starts in the memory of the ring.
    pub open spec fn buf_pos(&self, i: int) -> int {
        self.block().buf_addr(i) - self.base
    }
}

/// Position within the memory at `base` of the buffer of slot `i`.
pub(crate) fn locate_buf(ring: &RingBlock, base: usize, i: usize, Ghost(size): Ghost<nat>) -> (pos:
    usize)
    requires
        ring@.wf(base, size),
        i < ring@.slot.len(),
    ensures
        pos == ring@.buf_addr(i as int) - base,
        pos + ring.header.nr_buf_size <= size,
{
    assert(ring@.buf_within(i as int, ring.header.nr_buf_size as int, base, size)) by {
        assert(ring@.slot[i as int] == ring@.slot[i as int]);
    }
    (ring.buf_addr(i) - base as i128) as usize
}

/// Copies `data` into `mem` at `pos`.
pub(crate) fn copy_into(mem: &mut [u8], pos: usize, data: &[u8])
    requires
        pos + data@.len() <= old(mem)@.len(),
    ensures
        final(mem)@ == splice(old(mem)@, pos as int, data@.len() as int, data@),
{
    let ghost before = mem@;
    let size: usize = mem.len();
    let mut i: usize = 0;
    while i < data.len()
        invariant
            i <= data@.len(),
            pos + data@.len() <= before.len(),
            mem@.len() == before.len(),
            before.len() == size,
            forall|k: int| 0 <= k < i ==> mem@[pos + k] == data@[k],
            forall|k: int| 0 <= k < before.len() && !(pos <= k < pos + i) ==> mem@[k] == before[k],
        decreases data@.len() - i,
    {
        mem[pos + i] = data[i];
        i += 1;
    }
    assert(mem@ =~= splice(before, pos as int, data@.len() as int, data@)) by {
        assert forall|k: int| 0 <= k < before.len() implies mem@[k] == #[trigger] splice(
            before,
            pos as int,
            data@.len() as int,
            data@,
        )[k] by {
            if pos <= k < pos + data@.len() {
                assert(mem@[pos + (k - pos)] == data@[k - pos]);
            }
        }
    }
}

impl<'a> TxRing<'a> {
    /// Ring number `index` to send on.
    pub fn new(ring: &'a mut RingBlock, mem: &'a mut [u8], base: usize, index: usize) -> (r: Self)
        ensures
            *r.0.ring == *old(ring),
            *final(r.0.ring) == *final(ring),
            r.0.mem@ == old(mem)@,
            final(r.0.mem)@ == final(mem)@,
            r.0.base == base,
            r.0.index == index,
    {
        TxRing(Ring::new(ring, mem, base, index))
    }

    /// Sends one packet: copies it into the buffer of the current slot and moves on.
    ///
    /// The packet leaves the machine with the next synchronisation.
    pub fn send(&mut self, buf: &[u8]) -> (r: Result<(), Error>)
        requires
            old(self).0.wf(),
        ensures
            final(self).0.wf(),
            final(self).0.base == old(self).0.base,
            final(self).0.index == old(self).0.index,
            *final(final(self).0.ring) == *final(old(self).0.ring),
            final(final(self).0.mem)@ == final(old(self).0.mem)@,
            ({
                let ring = old(self).0.block();
                let cur = ring.header.cur as int;
                if buf@.len() > ring.header.nr_buf_size {
                    &&& r == Err::<(), Error>(Error::PacketTooLarge(buf.len()))
                    &&& final(self).0.block() == ring
                    &&& final(self).0.bytes() == old(self).0.bytes()
                } else if ring.header.cur == ring.header.tail {
                    &&& r == Err::<(), Error>(Error::InsufficientSpace)
                    &&& final(self).0.block() == ring
                    &&& final(self).0.bytes() == old(self).0.bytes()
                } else {
                    &&& r == Ok::<(), Error>(())
                    &&& final(self).0.block() == ring.with_len(cur, slot_len(buf@.len())).at(
                        ring.slot_at(cur, 1) as u32,
                    )
                    &&& final(self).0.bytes() == splice(
                        old(self).0.bytes(),
                        old(self).0.buf_pos(cur),
                        buf@.len() as int,
                        buf@,
                    )
                    &&& buf@.len() <= 65535 ==> final(self).0.block().slot[cur].len == buf@.len()
                    &&& forall|k: int|
                        0 <= k < buf@.len() ==> #[trigger] buf@[k]
                            == final(self).0.bytes()[ring.addr + ring.header.buf_ofs + ring.slot[cur].buf_idx
                            * ring.header.nr_buf_size - old(self).0.base + k]
                }
            }),
    {
        if buf.len() > self.0.ring.header.nr_buf_size as usize {
            return Err(Error::PacketTooLarge(buf.len()));
        }
        let cur: u32 = self.0.ring.header.cur;
        let tail: u32 = self.0.ring.header.tail;
        let num_slots: u32 = self.0.ring.header.num_slots;
        if cur == tail {
            return Err(Error::InsufficientSpace);
        }
        let slot_idx: usize = cur as usize;
        let pos: usize = locate_buf(&*self.0.ring, self.0.base, slot_idx, Ghost(self.0.mem@.len()));
        copy_into(&mut *self.0.mem, pos, buf);
        let mut slot: netmap_slot = self.0.ring.slot[slot_idx];
        slot.len = buf.len() as u16;
        self.0.ring.slot[slot_idx] = slot;

        proof {
            lemma_slot_len(buf.len());
            lemma_next(cur as int, num_slots as int);
            crate::ring_laws::law_send(
                old(self).0.block(),
                self.0.base,
                old(self).0.bytes(),
                buf@,
            );
        }
        let next_index: u32 = if cur + 1 >= num_slots { 0 } else { cur + 1 };
        self.0.ring.header.cur = next_index;
        self.0.ring.header.head = next_index;
        Ok(())
    }

    /// The call that synchronises the ring with the kernel by waiting for room to send.
    pub fn sync(&self) -> (call: SyncCall)
        ensures
            call == (SyncCall::PollOut { timeout_ms: 10 }),
    {
        SyncCall::PollOut { timeout_ms: 10 }
    }

    /// The call that synchronises the ring with the kernel without waiting.
    pub fn sync_ioctl(&self) -> (call: SyncCall)
        ensures
            call == (SyncCall::TxSync { request: 0x6994 }),
    {
        SyncCall::TxSync { request: NIOCTXSYNC }
    }

    /// The largest packet that fits a buffer of this ring.
    pub fn max_payload_size(&self) -> (size: usize)
        ensures
            size == self.0.block().header.nr_buf_size,
    {
        self.0.ring.header.nr_buf_size as usize
    }

    /// Reserves `count` slots for a batch.
    pub fn reserve_batch(&mut self, count: usize) -> (r: Result<BatchReservation<'_>, Error>)
        requires
            old(self).0.wf(),
        ensures
            final(self).0.base == old(self).0.base,
            final(self).0.index == old(self).0.index,
            *final(final(self).0.ring) == *final(old(self).0.ring),
            final(final(self).0.mem)@ == final(old(self).0.mem)@,
            r is Ok <==> count <= old(self).0.block().free_slots(),
            match r {
                Ok(batch) => {
                    &&& batch.wf()
                    &&& batch.start == old(self).0.block().header.head
                    &&& batch.count == count
                    &&& batch.ring.base == old(self).0.base
                    &&& batch.ring.index == old(self).0.index
                    &&& batch.ring.block() == old(self).0.block()
                    &&& batch.ring.bytes() == old(self).0.bytes()
                    &&& *final(self).0.ring == *final(batch.ring.ring)
                    &&& final(self).0.mem@ == final(batch.ring.mem)@
                },
                Err(e) => {
                    &&& e == Error::InsufficientSpace
                    &&& final(self).0.wf()
                    &&& final(self).0.block() == old(self).0.block()
                    &&& final(self).0.bytes() == old(self).0.bytes()
                },
            },
    {
        let available_slots: usize = available(&*self.0.ring);
        if available_slots < count {
            return Err(Error::InsufficientSpace);
        }
        let start: u32 = self.0.ring.header.head;
        Ok(
            BatchReservation {
                ring: Ring {
                    ring: &mut *self.0.ring,
                    mem: &mut *self.0.mem,
                    base: self.0.base,
                    index: self.0.index,
                },
                start,
                count,
            },
        )
    }

    /// Reserves every slot that is free at the moment, and says how many they are.
    pub fn reserve_all(&mut self) -> (r: Result<(BatchReservation<'_>, usize), Error>)
        requires
            old(self).0.wf(),
        ensures
            final(self).0.base == old(self).0.base,
            final(self).0.index == old(self).0.index,
            *final(final(self).0.ring) == *final(old(self).0.ring),
            final(final(self).0.mem)@ == final(old(self).0.mem)@,
            r is Ok <==> old(self).0.block().free_slots() != 0,
            match r {
                Ok((batch, count)) => {
                    &&& batch.wf()
                    &&& count == old(self).0.block().free_slots()
                    &&& batch.start == old(self).0.block().header.head
                    &&& batch.count == count
                    &&& batch.ring.base == old(self).0.base
                    &&& batch.ring.index == old(self).0.index
                    &&& batch.ring.block() == old(self).0.block()
                    &&& batch.ring.bytes() == old(self).0.bytes()
                    &&& *final(self).0.ring == *final(batch.ring.ring)
                    &&& final(self).0.mem@ == final(batch.ring.mem)@
                },
                Err(e) => {
                    &&& e == Error::InsufficientSpace
                    &&& final(self).0.wf()
                    &&& final(self).0.block() == old(self).0.block()
                    &&& final(self).0.bytes() == old(self).0.bytes()
                },
            },
    {
        let available_slots: usize = available(&*self.0.ring);
        if available_slots == 0 {
            return Err(Error::InsufficientSpace);
        }
        let start: u32 = self.0.ring.header.head;
        let reservation = BatchReservation {
            ring: Ring {
                ring: &mut *self.0.ring,
                mem: &mut *self.0.mem,
                base: self.0.base,
                index: self.0.index,
            },
            start,
            count: available_slots,
        };
        Ok((reservation, available_slots))
    }
}

/// Slots that a batch can take: all but the used ones and one that stays empty.
fn available(ring: &RingBlock) -> (slots: usize)
    requires
        ring.header.num_slots != 0,
    ensures
        slots == ring@.free_slots(),
        slots < ring.header.num_slots,
{
    let head: u32 = ring.header.head;
    let tail: u32 = ring.header.tail;
    let num_slots: u32 = ring.header.num_slots;
    let used: u32 = head.wrapping_sub(tail).wrapping_add(num_slots) % num_slots;
    (num_slots - 1).saturating_sub(used) as usize
}

/// Slots of a ring that are set aside for a batch of packets.
pub struct BatchReservation<'a> {
    pub ring: Ring<'a>,
    pub start: u32,
    pub count: usize,
}

impl<'a> BatchReservation<'a> {
    /// The batch lies within its ring.
    pub open spec fn wf(&self) -> bool {
        &&& self.ring.wf()
        &&& self.start < self.ring.block().header.num_slots
        &&& self.count < self.ring.block().header.num_slots
    }

    /// The slot of packet `index` of the batch.
    pub open spec fn slot_of(&self, index: int) -> int {
        self.ring.block().slot_at(self.start as int, index)
    }

    /// Notes `len` as the length of packet `index` and gives access to its bytes.
    pub fn packet(&mut self, index: usize, len: usize) -> (r: Result<&mut [u8], Error>)
        requires
            old(self).wf(),
            index < old(self).count ==> old(self).ring.block().buf_within(
                old(self).slot_of(index as int),
                len as int,
                old(self).ring.base,
                old(self).ring.bytes().len(),
            ),
        ensures
            final(self).start == old(self).start,
            final(self).count == old(self).count,
            final(self).ring.base == old(self).ring.base,
            final(self).ring.index == old(self).ring.index,
            *final(final(self).ring.ring) == *final(old(self).ring.ring),
            final(final(self).ring.mem)@ == final(old(self).ring.mem)@,
            r is Ok <==> index < old(self).count,
            match r {
                Ok(bytes) => {
                    let slot = old(self).slot_of(index as int);
                    let pos = old(self).ring.buf_pos(slot);
                    &&& bytes@ == old(self).ring.bytes().subrange(pos, pos + len)
                    &&& final(self).ring.block() == old(self).ring.block().with_len(
                        slot,
                        slot_len(len as nat),
                    )
                    &&& final(self).ring.bytes() == splice(
                        old(self).ring.bytes(),
                        pos,
                        len as int,
                        final(bytes)@,
                    )
                    &&& len <= 65535 ==> final(self).ring.block().slot[slot].len == len
                    &&& final(bytes)@.len() == len ==> final(self).wf()
                },
                Err(e) => {
                    &&& e == Error::InvalidRingIndex(index)
                    &&& final(self).wf()
                    &&& final(self).ring.block() == old(self).ring.block()
                    &&& final(self).ring.bytes() == old(self).ring.bytes()
                },
            },
    {
        if index >= self.count {
            return Err(Error::InvalidRingIndex(index));
        }
        let num_slots: u64 = self.ring.ring.header.num_slots as u64;
        let slot_idx: usize = ((self.start as u64 + index as u64) % num_slots) as usize;
        let mut slot: netmap_slot = self.ring.ring.slot[slot_idx];
        slot.len = len as u16;
        proof {
            lemma_slot_len(len);
        }
        let pos: usize = locate_buf(
            &*self.ring.ring,
            self.ring.base,
            slot_idx,
            Ghost(self.ring.mem@.len()),
        );
        self.ring.ring.slot[slot_idx] = slot;
        let (_, rest) = self.ring.mem.split_at_mut(pos);
        let (bytes, _) = rest.split_at_mut(len);
        Ok(bytes)
    }

    /// Hands the first `written` packets of the batch over, or all of them if there are fewer.
    pub fn commit(self, written: usize)
        requires
            self.wf(),
        ensures
            final(self.ring.mem)@ == old(self.ring.mem)@,
            (*final(self.ring.ring))@.wf(self.ring.base, old(self.ring.mem)@.len()),
            (*final(self.ring.ring))@ == ({
                let ring = (*old(self.ring.ring))@;
                let taken = if written <= self.count { written as int } else { self.count as int };
                if taken == 0 {
                    ring
                } else {
                    ring.at(ring.slot_at(self.start as int, taken) as u32)
                }
            }),
    {
        let actual_written: usize = if written <= self.count { written } else { self.count };
        if actual_written == 0 {
            return;
        }
        let num_slots: u64 = self.ring.ring.header.num_slots as u64;
        let new_head: u32 = ((self.start as u64 + actual_written as u64) % num_slots) as u32;
        self.ring.ring.header.cur = new_head;
        self.ring.ring.header.head = new_head;
    }
}

/// A ring that packets are received on.
pub struct RxRing<'a>(pub Ring<'a>);

impl<'a> RxRing<'a> {
    /// Ring number `index` to receive on.
    pub fn new(ring: &'a mut RingBlock, mem: &'a mut [u8], base: usize, index: usize) -> (r: Self)
        ensures
            *r.0.ring == *old(ring),
            *final(r.0.ring) == *final(ring),
            r.0.mem@ == old(mem)@,
            final(r.0.mem)@ == final(mem)@,
            r.0.base == base,
            r.0.index == index,
    {
        RxRing(Ring::new(ring, mem, base, index))
    }

    /// The ring is well formed, and the packet that has waited longest lies within its memory.
    pub open spec fn can_recv(&self) -> bool {
        let ring = self.0.block();
        &&& self.0.wf()
        &&& ring.header.head != ring.header.tail ==> ring.packet_within(
            ring.header.head as int,
            self.0.base,
            self.0.bytes().len(),
        )
    }

    /// The ring is well formed, and every packet that waits lies within its memory.
    pub open spec fn wf(&self) -> bool {
        &&& self.can_recv()
        &&& self.0.packets_within()
    }

    /// The packet in slot `i`.
    pub open spec fn packet(&self, i: int) -> Seq<u8> {
        self.0.block().packet(i, self.0.base, self.0.bytes())
    }

    /// The call that synchronises the ring with the kernel.
    pub fn sync(&self) -> (call: SyncCall)
        ensures
            call == (SyncCall::RxSync { request: 0x6995 }),
    {
        SyncCall::RxSync { request: NIOCRXSYNC }
    }

    /// Receives one packet, if there is one.
    pub fn recv(&mut self) -> (r: Option<Frame<'_>>)
        requires
            old(self).can_recv(),
        ensures
            final(self).0.wf(),
            old(self).wf() ==> final(self).wf(),
            final(self).0.base == old(self).0.base,
            final(self).0.index == old(self).0.index,
            *final(final(self).0.ring) == *final(old(self).0.ring),
            final(final(self).0.mem)@ == final(old(self).0.mem)@,
            final(self).0.bytes() == old(self).0.bytes(),
            ({
                let ring = old(self).0.block();
                let head = ring.header.head as int;
                if ring.header.head == ring.header.tail {
                    &&& r is None
                    &&& final(self).0.block() == ring
                } else {
                    &&& r is Some
                    &&& r->0@ == old(self).packet(head)
                    &&& r->0@.len() == ring.slot[head].len
                    &&& forall|k: int|
                        0 <= k < ring.slot[head].len ==> #[trigger] r->0@[k]
                            == old(self).0.bytes()[ring.addr + ring.header.buf_ofs + ring.slot[head].buf_idx
                            * ring.header.nr_buf_size - old(self).0.base + k]
                    &&& final(self).0.block() == ring.at(ring.slot_at(head, 1) as u32)
                }
            }),
    {
        let head: u32 = self.0.ring.header.head;
        if head == self.0.ring.header.tail {
            return None;
        }
        let head_idx: usize = head as usize;
        let num_slots: u32 = self.0.ring.header.num_slots;
        proof {
            let ring = self.0.block();
            lemma_next(head as int, num_slots as int);
            if self.wf() {
                lemma_first_packet(ring, self.0.base, self.0.mem@.len());
                lemma_packets_left(ring, self.0.base, self.0.mem@.len(), 1);
            }
        }
        let next_idx: u32 = if head + 1 >= num_slots { 0 } else { head + 1 };
        self.0.ring.header.head = next_idx;
        self.0.ring.header.cur = next_idx;
        Some(frame_at(&*self.0.ring, self.0.base, &*self.0.mem, head_idx))
    }

    /// Receives packets into `batch`, as many as there are and as fit, and says how many.
    pub fn recv_batch<'b>(&'b mut self, batch: &mut [Frame<'b>]) -> (count: usize)
        requires
            old(self).wf(),
        ensures
            final(self).wf(),
            final(self).0.base == old(self).0.base,
            final(self).0.index == old(self).0.index,
            *final(final(self).0.ring) == *final(old(self).0.ring),
            final(final(self).0.mem)@ == final(old(self).0.mem)@,
            final(self).0.bytes() == old(self).0.bytes(),
            final(batch)@.len() == old(batch)@.len(),
            ({
                let ring = old(self).0.block();
                let head = ring.header.head as int;
                let ready = ring.ready_slots();
                &&& count == if ready <= old(batch)@.len() { ready } else { old(batch)@.len() as int }
                &&& forall|i: int| 0 <= i < count ==> (#[trigger] final(batch)@[i])@ == old(
                    self,
                ).packet(ring.slot_at(head, i))
                &&& forall|i: int| count <= i < old(batch)@.len() ==> final(batch)@[i] == old(
                    batch,
                )@[i]
                &&& final(self).0.block() == if count == 0 {
                    ring
                } else {
                    ring.at(ring.slot_at(head, count as int) as u32)
                }
            }),
    {
        let head: u32 = self.0.ring.header.head;
        let num_slots: u32 = self.0.ring.header.num_slots;
        let avail: usize = self.0.ring.ready();
        let count: usize = if avail <= batch.len() { avail } else { batch.len() };
        if count == 0 {
            return 0;
        }
        let ghost ring = self.0.ring@;
        let ghost before = batch@;
        proof {
            lemma_packets_left(ring, self.0.base, self.0.mem@.len(), count as int);
        }
        let new_head: u32 = ((head as u64 + count as u64) % (num_slots as u64)) as u32;
        self.0.ring.header.head = new_head;
        self.0.ring.header.cur = new_head;
        let block: &'b RingBlock = &*self.0.ring;
        let mem: &'b [u8] = &*self.0.mem;
        let base: usize = self.0.base;
        let mut i: usize = 0;
        while i < count
            invariant
                i <= count <= before.len(),
                batch@.len() == before.len(),
                count <= ring.ready_slots() < num_slots,
                head == ring.header.head,
                block@ == ring.at(new_head),
                ring.wf(base, mem@.len()),
                ring.packets_within(base, mem@.len()),
                head < num_slots,
                new_head < num_slots,
                num_slots == ring.header.num_slots,
                forall|k: int| 0 <= k < i ==> (#[trigger] batch@[k])@ == ring.packet(
                    ring.slot_at(head as int, k),
                    base,
                    mem@,
                ),
                forall|k: int| i <= k < before.len() ==> batch@[k] == before[k],
            decreases count - i,
        {
            let slot_idx: usize = ((head as u64 + i as u64) % (num_slots as u64)) as usize;
            assert(ring.slot_at(head as int, i as int) == slot_idx);
            assert(ring.packet_within(slot_idx as int, base, mem@.len()));
            batch[i] = frame_at(block, base, mem, slot_idx);
            i += 1;
        }
        count
    }
}

/// The packet in slot `i`, as a frame over the memory at `base`.
fn frame_at<'b>(ring: &RingBlock, base: usize, mem: &'b [u8], i: usize) -> (frame: Frame<'b>)
    requires
        ring@.wf(base, mem@.len()),
        i < ring@.slot.len(),
        ring@.packet_within(i as int, base, mem@.len()),
    ensures
        frame@ == ring@.packet(i as int, base, mem@),
{
    let len: usize = ring.slot[i].len as usize;
    let pos: usize = locate_buf(ring, base, i, Ghost(mem@.len()));
    Frame::new(vstd::slice::slice_subrange(mem, pos, pos + len))
}

} // verus!
