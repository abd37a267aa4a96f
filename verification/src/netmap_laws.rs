//! What holds of names, requests and tables of rings.
use vstd::prelude::*;

use crate::ffi::nmreq;
use crate::netmap::{BuilderView, Netmap};
use crate::ring::RingBlock;

verus! {

/// What a name asks for, read off its characters.
///
/// A name is an optional `netmap:`, the base name and an optional `^`. It asks for the rings of the
/// host stack exactly if it ends in `^`, whatever else it holds; any other name asks for a pipe
/// exactly if it goes on with `pipe{` behind the prefix. A name without the prefix gets it, unless it
/// holds a `:` or starts with `pipe{`. A pipe starts with one ring each way, all else with none.
pub proof fn law_name(name: Seq<char>)
    ensures
        ({
            let b = crate::netmap::fresh_builder(name);
            let prefixed = name.len() >= 7 && name.take(7) == "netmap:"@;
            let rest = if prefixed {
                name.skip(7)
            } else {
                name
            };
            let host = name.len() > 0 && name[name.len() - 1] == '^';
            let pipe = rest.len() >= 5 && rest.take(5) == "pipe{"@ && !host;
            &&& b.wants_host_rings == host
            &&& b.is_pipe_if == pipe
            &&& b.ifname_raw == if prefixed || (exists|i: int|
                0 <= i < name.len() && name[i] == ':') || (rest.len() >= 5 && rest.take(5)
                == "pipe{"@) {
                name
            } else {
                "netmap:"@ + name
            }
            &&& name == (if prefixed {
                "netmap:"@
            } else {
                Seq::<char>::empty()
            }) + b.base_ifname + (if host {
                seq!['^']
            } else {
                Seq::<char>::empty()
            })
            &&& b.req_num_tx_rings == if pipe {
                1int
            } else {
                0
            }
            &&& b.req_num_rx_rings == if pipe {
                1int
            } else {
                0
            }
            &&& b.additional_flags == 0
        }),
{
    reveal_strlit("netmap:");
    reveal_strlit("pipe{");
    let prefixed = name.len() >= 7 && name.take(7) == "netmap:"@;
    let rest = if prefixed {
        name.skip(7)
    } else {
        name
    };
    if "netmap:"@.is_prefix_of(name) {
        assert(name.take(7) =~= "netmap:"@);
    }
    if prefixed {
        assert("netmap:"@ =~= name.subrange(0, 7));
        assert("netmap:"@.is_prefix_of(name));
        assert(name[6] == "netmap:"@[6]);
    }
    assert(prefixed == "netmap:"@.is_prefix_of(name));
    assert(crate::netmap::without_prefix(name) =~= rest);
    if "pipe{"@.is_prefix_of(rest) {
        assert(rest.take(5) =~= "pipe{"@);
    }
    if rest.len() >= 5 && rest.take(5) == "pipe{"@ {
        assert("pipe{"@ =~= rest.subrange(0, 5));
        assert("pipe{"@.is_prefix_of(rest));
    }
    let b = crate::netmap::fresh_builder(name);
    assert(name =~= (if prefixed {
        "netmap:"@
    } else {
        Seq::<char>::empty()
    }) + b.base_ifname + (if b.wants_host_rings {
        seq!['^']
    } else {
        Seq::<char>::empty()
    }));
}

/// The number of rings that is asked for is the number that was set, in 16 bits; for a pipe none
/// stands for one.
pub proof fn law_rings_asked(num: usize, is_pipe_if: bool)
    ensures
        0 < num <= 65535 ==> crate::netmap::rings_asked(num, is_pipe_if) == num,
        num == 0 ==> crate::netmap::rings_asked(num, is_pipe_if) == if is_pipe_if {
            1int
        } else {
            0
        },
        num > 0 ==> crate::netmap::rings_asked(num, is_pipe_if) == num % 0x1_0000,
{
}

/// The request of a builder for `name`, whatever flags and numbers of rings were set.
///
/// Beyond the flags that were set it has the bit for the host stack (2) exactly if the name ends in
/// `^`, and the bit for the card (1) exactly if the name neither ends in `^` nor is that of a pipe,
/// whatever else the name holds. It carries the bytes of the base name, with zeros behind them, and
/// the numbers of rings that were asked for; all else is fixed.
pub proof fn law_request(name: Seq<char>, builder: BuilderView, req: nmreq)
    requires
        builder.base_ifname == crate::netmap::fresh_builder(name).base_ifname,
        builder.wants_host_rings == crate::netmap::fresh_builder(name).wants_host_rings,
        builder.is_pipe_if == crate::netmap::fresh_builder(name).is_pipe_if,
        builder.is_request(req),
    ensures
        ({
            let f = builder.additional_flags;
            let prefixed = name.len() >= 7 && name.take(7) == "netmap:"@;
            let rest = if prefixed {
                name.skip(7)
            } else {
                name
            };
            let host = name.len() > 0 && name[name.len() - 1] == '^';
            let pipe = rest.len() >= 5 && rest.take(5) == "pipe{"@ && !host;
            let base = if host {
                rest.take(rest.len() - 1)
            } else {
                rest
            };
            let bytes = vstd::utf8::encode_utf8(base);
            &&& host ==> req.nr_flags == f | 2
            &&& pipe ==> req.nr_flags == f
            &&& !host && !pipe ==> req.nr_flags == f | 1
            &&& f & 2 == 0 ==> (req.nr_flags & 2 == 2 <==> host)
            &&& f & 1 == 0 ==> (req.nr_flags & 1 == 1 <==> !host && !pipe)
            &&& req.nr_flags & !3u32 == f & !3u32
            &&& forall|i: int|
                0 <= i < 16 ==> #[trigger] req.nr_name@[i] == if i < bytes.len() {
                    bytes[i] as i8
                } else {
                    0i8
                }
            &&& req.nr_tx_rings == builder.req_num_tx_rings
            &&& req.nr_rx_rings == builder.req_num_rx_rings
            &&& req.nr_version == 14
            &&& req.nr_offset == 0
            &&& req.nr_memsize == 0
            &&& req.nr_tx_slots == 0
            &&& req.nr_rx_slots == 0
            &&& req.nr_ringid == 0
            &&& req.nr_cmd == 0
            &&& req.nr_arg1 == 0
            &&& req.nr_arg2 == 0
            &&& req.nr_arg3 == 0
            &&& req.spare2@[0] == 0
        }),
{
    law_name(name);
    let f = builder.additional_flags;
    assert((f | 1u32) & 1u32 == 1u32 && (f | 2u32) & 2u32 == 2u32 && (f | 1u32) & 2u32 == f & 2u32
        && (f | 2u32) & 1u32 == f & 1u32 && (f | 1u32) & !3u32 == f & !3u32 && (f | 2u32) & !3u32
        == f & !3u32) by (bit_vector);
    let prefixed = name.len() >= 7 && name.take(7) == "netmap:"@;
    let rest = if prefixed {
        name.skip(7)
    } else {
        name
    };
    let host = name.len() > 0 && name[name.len() - 1] == '^';
    reveal_strlit("netmap:");
    let base = if host {
        rest.take(rest.len() - 1)
    } else {
        rest
    };
    if prefixed {
        assert(name[6] == name.take(7)[6]);
    }
    assert(base =~= builder.base_ifname);
}

/// A name is refused exactly if its base takes more than 15 bytes or the name that is opened holds a
/// NUL, and the refusal says which.
pub proof fn law_refusal(builder: BuilderView)
    ensures
        ({
            let long = vstd::utf8::encode_utf8(builder.base_ifname).len() > 15;
            let nul = exists|i: int|
                0 <= i < builder.ifname_raw.len() && builder.ifname_raw[i] == '\0';
            &&& builder.name_fits() <==> !long
            &&& builder.refusal() is None <==> !long && !nul
            &&& long ==> builder.refusal() == Some(
                "Base interface name '"@ + builder.base_ifname + "' is too long."@,
            )
            &&& !long && nul ==> builder.refusal() == Some(
                "Invalid raw interface name: "@ + builder.ifname_raw,
            )
        }),
{
}

/// Where the rings of an interface stand in its table, and where they lie.
pub proof fn law_ring_table(nm: Netmap<'_>, i: int)
    ensures
        ({
            let nifp = nm.desc.nifp;
            &&& nm.tx_entry(i) == if nm.is_host_if {
                nifp.ni_tx_rings + i
            } else {
                i
            }
            &&& nm.rx_entry(i) == if nm.is_host_if {
                nifp.ni_tx_rings + nifp.ni_host_tx_rings + nifp.ni_rx_rings + i
            } else {
                nifp.ni_tx_rings + i
            }
            &&& crate::netmap::ring_addr(nifp, i) == nifp.addr + nifp.ring_ofs@[i]
        }),
{
}

/// Among rings, the first one at an address is found if there is one there, and it alone.
pub proof fn law_ring_is_found(rings: Seq<RingBlock>, addr: int)
    ensures
        crate::netmap::has_ring_at(rings, addr) <==> exists|j: int|
            0 <= j < rings.len() && (#[trigger] rings[j]).addr == addr,
        crate::netmap::has_ring_at(rings, addr) ==> {
            let j = crate::netmap::ring_at(rings, addr);
            &&& 0 <= j < rings.len()
            &&& rings[j].addr == addr
            &&& forall|i: int| 0 <= i < j ==> (#[trigger] rings[i]).addr != addr
        },
        forall|j: int| #[trigger]
            crate::netmap::is_ring_at(rings, addr, j) ==> {
                &&& 0 <= j < rings.len()
                &&& rings[j].addr == addr
                &&& forall|i: int| 0 <= i < j ==> (#[trigger] rings[i]).addr != addr
            },
{
    if crate::netmap::has_ring_at(rings, addr) {
        let j = choose|j: int| 0 <= j < rings.len() && (#[trigger] rings[j]).addr == addr;
        lemma_first_at(rings, addr, j);
    }
}

proof fn lemma_first_at(rings: Seq<RingBlock>, addr: int, j: int)
    requires
        0 <= j < rings.len(),
        rings[j].addr == addr,
    ensures
        exists|k: int| #[trigger] crate::netmap::is_ring_at(rings, addr, k),
    decreases j,
{
    if exists|i: int| 0 <= i < j && (#[trigger] rings[i]).addr == addr {
        let i = choose|i: int| 0 <= i < j && (#[trigger] rings[i]).addr == addr;
        lemma_first_at(rings, addr, i);
    } else {
        assert(crate::netmap::is_ring_at(rings, addr, j));
    }
}

/// An entry of the table leads to a ring exactly if it is there, is not negative, and a ring lies
/// where it points, well formed over the memory of the interface; the ring can be read if its
/// packets lie there as well.
pub proof fn law_entry_leads_to_ring(nm: Netmap<'_>, k: int)
    ensures
        ({
            let ofs = nm.desc.nifp.ring_ofs@;
            let rings = nm.desc.rings@;
            let j = crate::netmap::ring_at(rings, nm.desc.nifp.addr + ofs[k]);
            let size = old(nm.desc.mem)@.len();
            &&& nm.desc.has_ring(k) <==> {
                &&& 0 <= k < ofs.len()
                &&& k <= isize::MAX
                &&& ofs[k] >= 0
                &&& exists|i: int|
                    0 <= i < rings.len() && (#[trigger] rings[i]).addr == nm.desc.nifp.addr + ofs[k]
                &&& rings[j]@.wf(nm.desc.base, size)
            }
            &&& nm.desc.has_readable_ring(k) <==> nm.desc.has_ring(k) && rings[j]@.packets_within(
                nm.desc.base,
                size,
            )
        }),
{
}

} // verus!
