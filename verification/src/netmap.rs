use vstd::prelude::*;
use vstd::string::*;

use crate::error::Error;
use crate::ffi::{netmap_if, nmreq, IFNAMSIZ, NETMAP_API, NR_REG_ALL_NIC, NR_REG_SW};
use crate::ring::{RingBlock, RxRing, TxRing};
use crate::text::join;

verus! {

/// The name of an interface without the prefix `netmap:`.
pub open spec fn without_prefix(name: Seq<char>) -> Seq<char> {
    if "netmap:"@.is_prefix_of(name) {
        name.skip("netmap:"@.len() as int)
    } else {
        name
    }
}

/// The name under which the interface is opened: names of plain interfaces get the prefix
/// `netmap:`, names of switch ports and pipes stay as they are.
pub open spec fn raw_name(name: Seq<char>) -> Seq<char> {
    if "netmap:"@.is_prefix_of(name) || name.contains(':') || "pipe{"@.is_prefix_of(name) {
        name
    } else {
        "netmap:"@ + name
    }
}

/// The name ends in `^`, which asks for the rings of the host stack.
pub open spec fn names_host_rings(name: Seq<char>) -> bool {
    let base = without_prefix(name);
    base.len() > 0 && base.last() == '^'
}

/// The name is that of a pipe: `pipe{` and its own name, with or without a closing brace.
pub open spec fn names_pipe(name: Seq<char>) -> bool {
    "pipe{"@.is_prefix_of(without_prefix(name)) && !names_host_rings(name)
}

/// The name without prefix and without `^`.
pub open spec fn base_name(name: Seq<char>) -> Seq<char> {
    if names_host_rings(name) {
        without_prefix(name).drop_last()
    } else {
        without_prefix(name)
    }
}

/// What a [`NetmapBuilder`] holds.
#[verifier::ext_equal]
pub struct BuilderView {
    pub ifname_raw: Seq<char>,
    pub base_ifname: Seq<char>,
    pub wants_host_rings: bool,
    pub is_pipe_if: bool,
    pub req_num_tx_rings: u16,
    pub req_num_rx_rings: u16,
    pub additional_flags: u32,
}

/// What a builder holds right after it was made for `name`.
pub open spec fn fresh_builder(name: Seq<char>) -> BuilderView {
    BuilderView {
        ifname_raw: raw_name(name),
        base_ifname: base_name(name),
        wants_host_rings: names_host_rings(name),
        is_pipe_if: names_pipe(name),
        req_num_tx_rings: if names_pipe(name) { 1 } else { 0 },
        req_num_rx_rings: if names_pipe(name) { 1 } else { 0 },
        additional_flags: 0,
    }
}

/// The number of rings to ask for when `num` are wanted: 16 bits of it, and for a pipe one ring
/// in place of none.
pub open spec fn rings_asked(num: usize, is_pipe_if: bool) -> u16 {
    if is_pipe_if && num == 0 {
        1
    } else {
        (num % 0x1_0000) as u16
    }
}

impl BuilderView {
    /// The base name fits the request, with a NUL at its end.
    pub open spec fn name_fits(self) -> bool {
        vstd::utf8::encode_utf8(self.base_ifname).len() < IFNAMSIZ
    }

    /// Why the interface cannot be opened under its name, if it cannot.
    pub open spec fn refusal(self) -> Option<Seq<char>> {
        if !self.name_fits() {
            Some("Base interface name '"@ + self.base_ifname + "' is too long."@)
        } else if self.ifname_raw.contains('\0') {
            Some("Invalid raw interface name: "@ + self.ifname_raw)
        } else {
            None
        }
    }

    /// `req` is the request that the builder stands for.
    pub open spec fn is_request(self, req: nmreq) -> bool {
        let name = vstd::utf8::encode_utf8(self.base_ifname);
        &&& forall|i: int|
            0 <= i < IFNAMSIZ ==> #[trigger] req.nr_name@[i] == if i < name.len() {
                name[i] as i8
            } else {
                0i8
            }
        &&& req.nr_version == NETMAP_API
        &&& req.nr_flags == if self.is_pipe_if {
            self.additional_flags
        } else if self.wants_host_rings {
            self.additional_flags | NR_REG_SW
        } else {
            self.additional_flags | NR_REG_ALL_NIC
        }
        &&& req.nr_tx_rings == self.req_num_tx_rings
        &&& req.nr_rx_rings == self.req_num_rx_rings
        &&& req.nr_offset == 0
        &&& req.nr_memsize == 0
        &&& req.nr_tx_slots == 0
        &&& req.nr_rx_slots == 0
        &&& req.nr_ringid == 0
        &&& req.nr_cmd == 0
        &&& req.nr_arg1 == 0
        &&& req.nr_arg2 == 0
        &&& req.nr_arg3 == 0
        &&& req.spare2@ == seq![0u32]
    }
}

/// Collects what is wanted of an interface before it is opened.
///
/// A name that ends in `^` asks for the rings of the host stack.
#[derive(Debug)]
pub struct NetmapBuilder {
    ifname_raw: String,
    base_ifname: String,
    wants_host_rings: bool,
    is_pipe_if: bool,
    req_num_tx_rings: u16,
    req_num_rx_rings: u16,
    additional_flags: u32,
}

impl View for NetmapBuilder {
    type V = BuilderView;

    closed spec fn view(&self) -> BuilderView {
        BuilderView {
            ifname_raw: self.ifname_raw@,
            base_ifname: self.base_ifname@,
            wants_host_rings: self.wants_host_rings,
            is_pipe_if: self.is_pipe_if,
            req_num_tx_rings: self.req_num_tx_rings,
            req_num_rx_rings: self.req_num_rx_rings,
            additional_flags: self.additional_flags,
        }
    }
}

/// Whether `text` starts with `prefix`.
fn starts_with(text: &str, prefix: &str) -> (yes: bool)
    ensures
        yes == prefix@.is_prefix_of(text@),
{
    let n: usize = prefix.unicode_len();
    if text.unicode_len() < n {
        return false;
    }
    let mut i: usize = 0;
    while i < n
        invariant
            i <= n == prefix@.len() <= text@.len(),
            forall|k: int| 0 <= k < i ==> text@[k] == prefix@[k],
        decreases n - i,
    {
        if text.get_char(i) != prefix.get_char(i) {
            assert(text@[i as int] != prefix@[i as int]);
            return false;
        }
        i += 1;
    }
    assert(text@.subrange(0, prefix@.len() as int) =~= prefix@);
    true
}

/// Whether `c` occurs in `text`.
fn contains_char(text: &str, c: char) -> (yes: bool)
    ensures
        yes == text@.contains(c),
{
    let n: usize = text.unicode_len();
    let mut i: usize = 0;
    while i < n
        invariant
            i <= n == text@.len(),
            forall|k: int| 0 <= k < i ==> text@[k] != c,
        decreases n - i,
    {
        if text.get_char(i) == c {
            assert(text@[i as int] == c);
            return true;
        }
        i += 1;
    }
    false
}

/// Whether `text` ends in `c`.
fn ends_with(text: &str, c: char) -> (yes: bool)
    ensures
        yes == (text@.len() > 0 && text@.last() == c),
{
    let n: usize = text.unicode_len();
    n > 0 && text.get_char(n - 1) == c
}

impl NetmapBuilder {
    /// Starts a builder for the interface `ifname_str`.
    ///
    /// The prefix `netmap:` may be left out of the name of a plain interface. Append `^` for the
    /// rings of the host stack. Switch ports (`vale0:1`) and pipes (`pipe{abc`) go by their full
    /// name.
    pub fn new(ifname_str: &str) -> (builder: Self)
        ensures
            builder@ == fresh_builder(ifname_str@),
    {
        let has_prefix: bool = starts_with(ifname_str, "netmap:");
        let n: usize = ifname_str.unicode_len();
        proof {
            reveal_strlit("netmap:");
            reveal_strlit("pipe{");
            reveal_strlit("");
        }
        let base: &str = if has_prefix {
            ifname_str.substring_char(7, n)
        } else {
            ifname_str
        };
        assert(base@ =~= without_prefix(ifname_str@));
        let as_is: bool = has_prefix || contains_char(ifname_str, ':') || starts_with(
            ifname_str,
            "pipe{",
        );
        let ifname_raw: String = if as_is {
            ifname_str.to_owned()
        } else {
            join("netmap:", ifname_str, "")
        };
        assert(ifname_raw@ =~= raw_name(ifname_str@));

        let wants_host_rings: bool = ends_with(base, '^');
        let base_ifname: String = if wants_host_rings {
            let len: usize = base.unicode_len();
            base.substring_char(0, len - 1).to_owned()
        } else {
            base.to_owned()
        };
        assert(base_ifname@ =~= base_name(ifname_str@));
        let is_pipe_if: bool = starts_with(base, "pipe{") && !wants_host_rings;
        let default_rings: u16 = if is_pipe_if { 1 } else { 0 };
        NetmapBuilder {
            ifname_raw,
            base_ifname,
            wants_host_rings,
            is_pipe_if,
            req_num_tx_rings: default_rings,
            req_num_rx_rings: default_rings,
            additional_flags: 0,
        }
    }

    /// The name under which the interface is opened.
    pub fn raw_name(&self) -> (name: &str)
        ensures
            name@ == self@.ifname_raw,
    {
        self.ifname_raw.as_str()
    }

    /// Asks for `num` rings to send on: those of the host stack if the name asks for them. None
    /// stands for all there are, and for one with a pipe.
    pub fn num_tx_rings(self, num: usize) -> (builder: Self)
        ensures
            builder@ == (BuilderView {
                req_num_tx_rings: rings_asked(num, self@.is_pipe_if),
                ..self@
            }),
    {
        assert(num as u16 == num % 0x1_0000) by (bit_vector);
        let req_num_tx_rings: u16 = if self.is_pipe_if && num == 0 { 1 } else { num as u16 };
        NetmapBuilder { req_num_tx_rings, ..self }
    }

    /// Asks for `num` rings to receive on: those of the host stack if the name asks for them. None
    /// stands for all there are, and for one with a pipe.
    pub fn num_rx_rings(self, num: usize) -> (builder: Self)
        ensures
            builder@ == (BuilderView {
                req_num_rx_rings: rings_asked(num, self@.is_pipe_if),
                ..self@
            }),
    {
        assert(num as u16 == num % 0x1_0000) by (bit_vector);
        let req_num_rx_rings: u16 = if self.is_pipe_if && num == 0 { 1 } else { num as u16 };
        NetmapBuilder { req_num_rx_rings, ..self }
    }

    /// Sets the flags that the request carries besides the kind of rings.
    pub fn flags(self, flags: u32) -> (builder: Self)
        ensures
            builder@ == (BuilderView { additional_flags: flags, ..self@ }),
    {
        NetmapBuilder { additional_flags: flags, ..self }
    }

    /// The request to open the interface.
    pub fn build_nmreq(&self) -> (r: Result<nmreq, Error>)
        ensures
            match r {
                Ok(req) => self@.name_fits() && self@.is_request(req),
                Err(e) => {
                    &&& !self@.name_fits()
                    &&& e is BindFail
                    &&& e->BindFail_0@ == "Base interface name '"@ + self@.base_ifname
                        + "' is too long."@
                },
            },
    {
        let name: &[u8] = self.base_ifname.as_str().as_bytes();
        if name.len() >= IFNAMSIZ {
            return Err(
                Error::BindFail(
                    join("Base interface name '", self.base_ifname.as_str(), "' is too long."),
                ),
            );
        }
        let mut nr_name: [i8; 16] = [0i8;16];
        let mut i: usize = 0;
        while i < name.len()
            invariant
                i <= name@.len() < 16,
                forall|k: int| 0 <= k < i ==> nr_name@[k] == name@[k] as i8,
                forall|k: int| i <= k < 16 ==> nr_name@[k] == 0i8,
            decreases name@.len() - i,
        {
            nr_name[i] = name[i] as i8;
            i += 1;
        }

        let mut nr_flags: u32 = self.additional_flags;
        if !self.is_pipe_if {
            nr_flags = nr_flags | if self.wants_host_rings { NR_REG_SW } else { NR_REG_ALL_NIC };
        }
        let spare2: [u32; 1] = [0u32;1];
        assert(spare2@ =~= seq![0u32]);
        Ok(
            nmreq {
                nr_name,
                nr_version: NETMAP_API,
                nr_offset: 0,
                nr_memsize: 0,
                nr_tx_slots: 0,
                nr_rx_slots: 0,
                nr_tx_rings: self.req_num_tx_rings,
                nr_rx_rings: self.req_num_rx_rings,
                nr_ringid: 0,
                nr_flags,
                nr_cmd: 0,
                nr_arg1: 0,
                nr_arg2: 0,
                nr_arg3: 0,
                spare2,
            },
        )
    }

    /// The request with which the interface [`Self::raw_name`] is to be opened.
    pub fn open_request(&self) -> (r: Result<nmreq, Error>)
        ensures
            match r {
                Ok(req) => self@.refusal() is None && self@.is_request(req),
                Err(e) => {
                    &&& self@.refusal() is Some
                    &&& e is BindFail
                    &&& e->BindFail_0@ == self@.refusal()->0
                },
            },
    {
        let req = match self.build_nmreq() {
            Ok(req) => req,
            Err(e) => {
                return Err(e);
            },
        };
        if contains_char(self.ifname_raw.as_str(), '\0') {
            proof {
                reveal_strlit("");
            }
            let why: String = join("Invalid raw interface name: ", self.ifname_raw.as_str(), "");
            assert(why@ =~= "Invalid raw interface name: "@ + self@.ifname_raw);
            return Err(Error::BindFail(why));
        }
        Ok(req)
    }

    /// The interface, once `nm_open` was called with [`Self::open_request`]: `opened` is the
    /// descriptor that it returned, or the text of the error of the system.
    pub fn build<'m>(self, opened: Result<nm_desc<'m>, String>) -> (r: Result<Netmap<'m>, Error>)
        ensures
            r is Ok <==> self@.refusal() is None && opened is Ok,
            match r {
                Ok(nm) => {
                    let nifp = opened->Ok_0.nifp;
                    &&& nm.desc == opened->Ok_0
                    &&& nm.is_host_if == (self@.wants_host_rings && !self@.is_pipe_if)
                    &&& nm.num_tx_rings == if nm.is_host_if {
                        nifp.ni_host_tx_rings
                    } else {
                        nifp.ni_tx_rings
                    }
                    &&& nm.num_rx_rings == if nm.is_host_if {
                        nifp.ni_host_rx_rings
                    } else {
                        nifp.ni_rx_rings
                    }
                },
                Err(e) => {
                    &&& e is BindFail
                    &&& e->BindFail_0@ == match self@.refusal() {
                        Some(why) => why,
                        None => "Failed to open interface via nm_open for '"@ + self@.ifname_raw
                            + "'. Errno: "@ + opened->Err_0@,
                    }
                },
            },
    {
        match self.open_request() {
            Ok(_) => {},
            Err(e) => {
                return Err(e);
            },
        }
        match opened {
            Ok(desc) => {
                let is_host_if: bool = self.wants_host_rings && !self.is_pipe_if;
                let num_tx_rings: usize = if is_host_if {
                    desc.nifp.ni_host_tx_rings as usize
                } else {
                    desc.nifp.ni_tx_rings as usize
                };
                let num_rx_rings: usize = if is_host_if {
                    desc.nifp.ni_host_rx_rings as usize
                } else {
                    desc.nifp.ni_rx_rings as usize
                };
                Ok(Netmap { desc, num_tx_rings, num_rx_rings, is_host_if })
            },
            Err(errno) => {
                let mut why: String = join(
                    "Failed to open interface via nm_open for '",
                    self.ifname_raw.as_str(),
                    "'. Errno: ",
                );
                why.append(errno.as_str());
                Err(Error::BindFail(why))
            },
        }
    }
}

/// What opening an interface gives: the file descriptor, the descriptor of the interface, its
/// rings, and the memory of the packet buffers, which starts at address `base`.
#[allow(non_camel_case_types)]
pub struct nm_desc<'m> {
    pub fd: i32,
    pub nifp: netmap_if,
    pub rings: Vec<RingBlock>,
    pub base: usize,
    pub mem: &'m mut [u8],
}

/// Address of ring number `k` in `ring_ofs`.
pub open spec fn ring_addr(nifp: netmap_if, k: int) -> int {
    nifp.addr + nifp.ring_ofs@[k]
}

/// Ring `j` is the first one at `addr`.
pub open spec fn is_ring_at(rings: Seq<RingBlock>, addr: int, j: int) -> bool {
    &&& 0 <= j < rings.len()
    &&& rings[j].addr == addr
    &&& forall|i: int| 0 <= i < j ==> (#[trigger] rings[i]).addr != addr
}

/// Number of the first ring at `addr`.
pub open spec fn ring_at(rings: Seq<RingBlock>, addr: int) -> int {
    choose|j: int| is_ring_at(rings, addr, j)
}

/// There is a ring at `addr`.
pub open spec fn has_ring_at(rings: Seq<RingBlock>, addr: int) -> bool {
    exists|j: int| 0 <= j < rings.len() && (#[trigger] rings[j]).addr == addr
}

impl<'m> nm_desc<'m> {
    /// Entry `k` of `ring_ofs` leads to a ring, and the ring is well formed.
    pub open spec fn has_ring(&self, k: int) -> bool {
        let addr = ring_addr(self.nifp, k);
        &&& 0 <= k < self.nifp.ring_ofs@.len()
        &&& k <= isize::MAX
        &&& self.nifp.ring_ofs@[k] >= 0
        &&& has_ring_at(self.rings@, addr)
        &&& self.rings@[ring_at(self.rings@, addr)]@.wf(self.base, self.mem@.len())
    }

    /// Entry `k` of `ring_ofs` leads to a well-formed ring with packets to read.
    pub open spec fn has_readable_ring(&self, k: int) -> bool {
        &&& self.has_ring(k)
        &&& self.rings@[ring_at(self.rings@, ring_addr(self.nifp, k))]@.packets_within(
            self.base,
            self.mem@.len(),
        )
    }

    /// Number in `rings` of the ring that entry `k` of `ring_ofs` leads to, if it is well formed.
    fn valid_ring(&self, k: u64) -> (r: Option<usize>)
        ensures
            r is Some <==> self.has_ring(k as int),
            r matches Some(j) ==> j == ring_at(self.rings@, ring_addr(self.nifp, k as int)) && j
                < self.rings@.len(),
    {
        if k >= self.nifp.ring_ofs.len() as u64 || k > isize::MAX as u64 {
            return None;
        }
        let ofs: isize = self.nifp.ring_ofs[k as usize];
        if ofs < 0 {
            return None;
        }
        match find_ring(&self.rings, self.nifp.addr as u128 + ofs as u128) {
            Some(j) => if self.rings[j].is_valid(self.base, self.mem.len()) {
                Some(j)
            } else {
                None
            },
            None => None,
        }
    }
}

/// Address of the ring number `index` to send on.
#[allow(non_snake_case)]
pub fn NETMAP_TXRING(nifp: &netmap_if, index: isize) -> (addr: usize)
    requires
        0 <= index < nifp.ring_ofs@.len(),
        0 <= nifp.ring_ofs@[index as int],
        ring_addr(*nifp, index as int) <= usize::MAX,
    ensures
        addr == ring_addr(*nifp, index as int),
{
    nifp.addr + nifp.ring_ofs[index as usize] as usize
}

/// Address of the ring number `index` to receive on, in a table that lists these right behind the
/// `ni_tx_rings` rings to send on. In a table with rings of the host stack between the two, `index`
/// counts those as well.
#[allow(non_snake_case)]
pub fn NETMAP_RXRING(nifp: &netmap_if, index: isize) -> (addr: usize)
    requires
        0 <= nifp.ni_tx_rings + index < nifp.ring_ofs@.len(),
        0 <= nifp.ring_ofs@[nifp.ni_tx_rings + index],
        ring_addr(*nifp, nifp.ni_tx_rings + index) <= usize::MAX,
    ensures
        addr == ring_addr(*nifp, nifp.ni_tx_rings + index),
{
    assert(nifp.ni_tx_rings + index < nifp.ring_ofs.len());
    let k: usize = (nifp.ni_tx_rings as i128 + index as i128) as usize;
    nifp.addr + nifp.ring_ofs[k] as usize
}

/// Number of the first ring at `addr`, if there is one.
fn find_ring(rings: &Vec<RingBlock>, addr: u128) -> (r: Option<usize>)
    ensures
        r is Some <==> has_ring_at(rings@, addr as int),
        r matches Some(j) ==> {
            &&& is_ring_at(rings@, addr as int, j as int)
            &&& j == ring_at(rings@, addr as int)
        },
{
    let mut j: usize = 0;
    while j < rings.len()
        invariant
            j <= rings@.len(),
            forall|i: int| 0 <= i < j ==> (#[trigger] rings@[i]).addr != addr,
        decreases rings@.len() - j,
    {
        if rings[j].addr as u128 == addr {
            proof {
                let k = ring_at(rings@, addr as int);
                assert(is_ring_at(rings@, addr as int, j as int));
                assert(is_ring_at(rings@, addr as int, k));
                assert(rings@[k].addr == rings@[j as int].addr);
            }
            return Some(j);
        }
        j += 1;
    }
    None
}

/// An open interface.
pub struct Netmap<'m> {
    pub desc: nm_desc<'m>,
    pub num_tx_rings: usize,
    pub num_rx_rings: usize,
    pub is_host_if: bool,
}

impl<'m> Netmap<'m> {
    /// Entry in `ring_ofs` of ring `index` to send on. The table of an interface of the host stack
    /// lists the rings of the card to send on, those of the host stack to send on, the rings of the
    /// card to receive on, and those of the host stack to receive on; that of any other interface
    /// starts with the rings to send on.
    pub open spec fn tx_entry(&self, index: int) -> int {
        index + if self.is_host_if {
            self.desc.nifp.ni_tx_rings as int
        } else {
            0
        }
    }

    /// Entry in `ring_ofs` of ring `index` to receive on. In the table of an interface of the host
    /// stack, laid out as [`Self::tx_entry`] says, its rings come last; in that of any other
    /// interface the rings to receive on come right behind those to send on.
    pub open spec fn rx_entry(&self, index: int) -> int {
        self.desc.nifp.ni_tx_rings + index + if self.is_host_if {
            self.desc.nifp.ni_host_tx_rings + self.desc.nifp.ni_rx_rings
        } else {
            0
        }
    }

    /// The number of rings to send on.
    pub fn num_tx_rings(&self) -> (n: usize)
        ensures
            n == self.num_tx_rings,
    {
        self.num_tx_rings
    }

    /// The number of rings to receive on.
    pub fn num_rx_rings(&self) -> (n: usize)
        ensures
            n == self.num_rx_rings,
    {
        self.num_rx_rings
    }

    /// Whether the rings are those of the host stack.
    pub fn is_host_if(&self) -> (yes: bool)
        ensures
            yes == self.is_host_if,
    {
        self.is_host_if
    }

    /// Whether ring `index` to send on lies well formed in the memory of the interface.
    pub fn is_tx_ring_valid(&self, index: usize) -> (yes: bool)
        ensures
            yes == self.desc.has_ring(self.tx_entry(index as int)),
    {
        let first: u64 = if self.is_host_if { self.desc.nifp.ni_tx_rings as u64 } else { 0 };
        match first.checked_add(index as u64) {
            Some(k) => self.desc.valid_ring(k).is_some(),
            None => false,
        }
    }

    /// Whether ring `index` to receive on lies well formed in the memory of the interface.
    pub fn is_rx_ring_valid(&self, index: usize) -> (yes: bool)
        ensures
            yes == self.desc.has_readable_ring(self.rx_entry(index as int)),
    {
        let tx: u64 = self.desc.nifp.ni_tx_rings as u64;
        let first: u64 = if self.is_host_if {
            self.desc.nifp.ni_host_tx_rings as u64 + self.desc.nifp.ni_rx_rings as u64
        } else {
            0
        };
        match (tx + first).checked_add(index as u64) {
            Some(k) => match self.desc.valid_ring(k) {
                Some(j) => self.desc.rings[j].has_valid_packets(
                    self.desc.base,
                    self.desc.mem.len(),
                ),
                None => false,
            },
            None => false,
        }
    }

    /// Ring `index` to send on, counted among the rings of this interface.
    pub fn tx_ring(&mut self, index: usize) -> (r: Result<TxRing<'_>, Error>)
        requires
            index < old(self).num_tx_rings ==> old(self).desc.has_ring(
                old(self).tx_entry(index as int),
            ),
        ensures
            final(self).num_tx_rings == old(self).num_tx_rings,
            final(self).num_rx_rings == old(self).num_rx_rings,
            final(self).is_host_if == old(self).is_host_if,
            final(self).desc.fd == old(self).desc.fd,
            final(self).desc.nifp == old(self).desc.nifp,
            final(self).desc.base == old(self).desc.base,
            final(final(self).desc.mem)@ == final(old(self).desc.mem)@,
            r is Ok <==> index < old(self).num_tx_rings,
            match r {
                Ok(tx) => {
                    let j = ring_at(
                        old(self).desc.rings@,
                        ring_addr(old(self).desc.nifp, old(self).tx_entry(index as int)),
                    );
                    &&& is_ring_at(
                        old(self).desc.rings@,
                        ring_addr(old(self).desc.nifp, old(self).tx_entry(index as int)),
                        j,
                    )
                    &&& tx.0.wf()
                    &&& *tx.0.ring == old(self).desc.rings@[j]
                    &&& tx.0.mem@ == old(self).desc.mem@
                    &&& tx.0.base == old(self).desc.base
                    &&& tx.0.index == index
                    &&& final(self).desc.rings@ == old(self).desc.rings@.update(
                        j,
                        *final(tx.0.ring),
                    )
                    &&& final(self).desc.mem@ == final(tx.0.mem)@
                },
                Err(e) => {
                    &&& e == Error::InvalidRingIndex(index)
                    &&& final(self).desc.rings@ == old(self).desc.rings@
                    &&& final(self).desc.mem@ == old(self).desc.mem@
                },
            },
    {
        if index >= self.num_tx_rings {
            return Err(Error::InvalidRingIndex(index));
        }
        let first: usize = if self.is_host_if { self.desc.nifp.ni_tx_rings as usize } else { 0 };
        let addr: usize = NETMAP_TXRING(&self.desc.nifp, (first + index) as isize);
        match find_ring(&self.desc.rings, addr as u128) {
            Some(j) => {
                let base: usize = self.desc.base;
                Ok(TxRing::new(&mut self.desc.rings[j], &mut *self.desc.mem, base, index))
            },
            None => Err(Error::InvalidRingIndex(index)),
        }
    }

    /// Ring `index` to receive on, counted among the rings of this interface.
    pub fn rx_ring(&mut self, index: usize) -> (r: Result<RxRing<'_>, Error>)
        requires
            index < old(self).num_rx_rings ==> old(self).desc.has_ring(
                old(self).rx_entry(index as int),
            ),
        ensures
            final(self).num_tx_rings == old(self).num_tx_rings,
            final(self).num_rx_rings == old(self).num_rx_rings,
            final(self).is_host_if == old(self).is_host_if,
            final(self).desc.fd == old(self).desc.fd,
            final(self).desc.nifp == old(self).desc.nifp,
            final(self).desc.base == old(self).desc.base,
            final(final(self).desc.mem)@ == final(old(self).desc.mem)@,
            r is Ok <==> index < old(self).num_rx_rings,
            match r {
                Ok(rx) => {
                    let j = ring_at(
                        old(self).desc.rings@,
                        ring_addr(old(self).desc.nifp, old(self).rx_entry(index as int)),
                    );
                    &&& is_ring_at(
                        old(self).desc.rings@,
                        ring_addr(old(self).desc.nifp, old(self).rx_entry(index as int)),
                        j,
                    )
                    &&& rx.0.wf()
                    &&& old(self).desc.has_readable_ring(old(self).rx_entry(index as int))
                        ==> rx.wf()
                    &&& *rx.0.ring == old(self).desc.rings@[j]
                    &&& rx.0.mem@ == old(self).desc.mem@
                    &&& rx.0.base == old(self).desc.base
                    &&& rx.0.index == index
                    &&& final(self).desc.rings@ == old(self).desc.rings@.update(
                        j,
                        *final(rx.0.ring),
                    )
                    &&& final(self).desc.mem@ == final(rx.0.mem)@
                },
                Err(e) => {
                    &&& e == Error::InvalidRingIndex(index)
                    &&& final(self).desc.rings@ == old(self).desc.rings@
                    &&& final(self).desc.mem@ == old(self).desc.mem@
                },
            },
    {
        if index >= self.num_rx_rings {
            return Err(Error::InvalidRingIndex(index));
        }
        let first: usize = if self.is_host_if {
            self.desc.nifp.ni_host_tx_rings as usize + self.desc.nifp.ni_rx_rings as usize
        } else {
            0
        };
        let addr: usize = NETMAP_RXRING(&self.desc.nifp, (first + index) as isize);
        match find_ring(&self.desc.rings, addr as u128) {
            Some(j) => {
                let base: usize = self.desc.base;
                proof {
                    let ring = self.desc.rings@[j as int]@;
                    if ring.packets_within(base, self.desc.mem@.len()) {
                        crate::ring::lemma_first_packet(ring, base, self.desc.mem@.len());
                    }
                }
                Ok(RxRing::new(&mut self.desc.rings[j], &mut *self.desc.mem, base, index))
            },
            None => Err(Error::InvalidRingIndex(index)),
        }
    }
}

/// No two rings of an interface share an entry of `ring_ofs`, whether they are of one direction or
/// of both.
pub proof fn law_ring_entries_distinct(nm: Netmap<'_>, i: int, j: int)
    requires
        nm.num_tx_rings == if nm.is_host_if {
            nm.desc.nifp.ni_host_tx_rings
        } else {
            nm.desc.nifp.ni_tx_rings
        },
        0 <= i < nm.num_tx_rings,
        0 <= j < nm.num_rx_rings,
    ensures
        nm.tx_entry(i) != nm.rx_entry(j),
        forall|k: int| #[trigger] nm.tx_entry(k) == nm.tx_entry(i) ==> k == i,
        forall|k: int| #[trigger] nm.rx_entry(k) == nm.rx_entry(j) ==> k == j,
{
}

/// The prefix `netmap:` is optional: a builder for the name under which an interface is opened
/// is the same as one for the name that was given.
pub proof fn law_prefix_is_optional(name: Seq<char>)
    ensures
        fresh_builder(raw_name(name)) == fresh_builder(name),
        raw_name(raw_name(name)) == raw_name(name),
{
    reveal_strlit("netmap:");
    if raw_name(name) != name {
        let raw = "netmap:"@ + name;
        assert(raw.subrange(0, 7) =~= "netmap:"@);
        assert("netmap:"@.is_prefix_of(raw));
        assert(raw.skip(7) =~= name);
    }
}

/// Requests for different numbers of rings differ: the request carries the numbers that were asked
/// for, whether the rings are those of a network card, of the host stack or of a pipe.
pub proof fn law_ring_numbers_are_kept(
    builder: BuilderView,
    a: nmreq,
    b: nmreq,
    tx: usize,
    rx: usize,
)
    requires
        0 < tx <= u16::MAX,
        0 < rx <= u16::MAX,
        builder.is_request(a),
        (BuilderView {
            req_num_tx_rings: rings_asked(tx, builder.is_pipe_if),
            req_num_rx_rings: rings_asked(rx, builder.is_pipe_if),
            ..builder
        }).is_request(b),
    ensures
        b.nr_tx_rings == tx,
        b.nr_rx_rings == rx,
        builder.req_num_tx_rings != tx ==> a.nr_tx_rings != b.nr_tx_rings,
        builder.req_num_rx_rings != rx ==> a.nr_rx_rings != b.nr_rx_rings,
        a.nr_name@ =~= b.nr_name@,
        a.nr_flags == b.nr_flags,
{
    assert forall|i: int| 0 <= i < 16 implies a.nr_name@[i] == b.nr_name@[i] by {
        assert(i < IFNAMSIZ);
    }
}

/// A name asks for the rings of the host stack or for a pipe, never for both.
pub proof fn law_host_rings_or_pipe(name: Seq<char>)
    ensures
        !(names_host_rings(name) && names_pipe(name)),
{
    reveal_strlit("pipe{");
}

/// Every flag that was set goes into the request, and besides it only the kind of rings.
pub proof fn law_flags_are_kept(builder: BuilderView, req: nmreq)
    requires
        builder.is_request(req),
    ensures
        req.nr_flags & builder.additional_flags == builder.additional_flags,
        req.nr_flags & !builder.additional_flags & !3u32 == 0,
{
    let f = builder.additional_flags;
    assert(f & f == f && f & !f & !3u32 == 0) by (bit_vector);
    assert((f | 2u32) & f == f && (f | 2u32) & !f & !3u32 == 0) by (bit_vector);
    assert((f | 1u32) & f == f && (f | 1u32) & !f & !3u32 == 0) by (bit_vector);
}

/// The name in a request ends in a NUL.
pub proof fn law_name_is_terminated(builder: BuilderView, req: nmreq)
    requires
        builder.name_fits(),
        builder.is_request(req),
    ensures
        req.nr_name@[IFNAMSIZ - 1] == 0,
{
}

} // verus!
