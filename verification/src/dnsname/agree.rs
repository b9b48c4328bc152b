//! The representations agree on what they read
//!
//! Wire labels and a scratch name walk the same wire with different
//! limits: the one counts bytes and labels, the other runs out of room.
//! Where one of them finds a name, so does the other, and it is the same
//! name but for the case of its letters.

use crate::dnsname::FromWire;
use crate::dnsname::lower_name;
use crate::dnsname::scan::LabelFromWire;
use crate::dnsname::scan::room;
use crate::dnsname::scan::scan;
use crate::dnsname::scratch::ScratchName;
use crate::dnsname::wire::WireLabels;
use crate::dnsname::wire::WirePos;
use crate::error::Error;
use vstd::prelude::*;

verus! {

/// Where the walk with wire labels as its sink finds a name, the walk with
/// a scratch name as its sink finds the same labels and ends at the same
/// place.
pub proof fn lemma_scratch_follows_wire<'w, P: WirePos>(
    wire: Seq<u8>,
    squeezed: bool,
    pos: int,
    min: int,
    end: int,
    spots: Seq<int>,
)
    requires
        scan::<WireLabels<'w, P>>(wire, squeezed, pos, min, end, spots) is Ok,
    ensures
        scan::<ScratchName>(wire, squeezed, pos, min, end, spots) == scan::<WireLabels<'w, P>>(
            wire,
            squeezed,
            pos,
            min,
            end,
            spots,
        ),
    decreases min, room(wire, pos),
{
    if 0 <= pos < wire.len() {
        if wire[pos] <= crate::dnsname::MAX_LLEN {
            let next = pos + 1 + wire[pos];
            let far = if end < next {
                next
            } else {
                end
            };
            assert(<WireLabels<'w, P> as LabelFromWire>::refusal(wire, spots, pos) is None);
            if wire[pos] != 0 {
                assert(scan::<WireLabels<'w, P>>(wire, squeezed, next, min, far, spots.push(pos))
                    is Ok);
                assert(next < wire.len());
                lemma_scratch_follows_wire::<P>(wire, squeezed, next, min, far, spots.push(pos));
            }
        } else if wire[pos] >= 0xC0 && squeezed && pos + 1 < wire.len() {
            let target = crate::dnsname::scan::pointer_target(wire[pos], wire[pos + 1]);
            let far = if end < pos + 2 {
                pos + 2
            } else {
                end
            };
            if target < wire.len() && wire[target] < 0xC0 && target < min {
                lemma_scratch_follows_wire::<P>(wire, squeezed, target, target, far, spots);
            }
        }
    }
}

/// Where the walk with a scratch name as its sink finds a name, and every
/// position on the wire can be kept, the walk with wire labels as its sink
/// finds the same labels and ends at the same place.
pub proof fn lemma_wire_follows_scratch<'w, P: WirePos>(
    wire: Seq<u8>,
    squeezed: bool,
    pos: int,
    min: int,
    end: int,
    spots: Seq<int>,
)
    requires
        scan::<ScratchName>(wire, squeezed, pos, min, end, spots) is Ok,
        forall|at: int| 0 <= at < wire.len() ==> P::fits(at),
    ensures
        scan::<WireLabels<'w, P>>(wire, squeezed, pos, min, end, spots) == scan::<ScratchName>(
            wire,
            squeezed,
            pos,
            min,
            end,
            spots,
        ),
    decreases min, room(wire, pos),
{
    if 0 <= pos < wire.len() {
        if wire[pos] <= crate::dnsname::MAX_LLEN {
            let next = pos + 1 + wire[pos];
            let far = if end < next {
                next
            } else {
                end
            };
            assert(<ScratchName as LabelFromWire>::refusal(wire, spots, pos) is None);
            if wire[pos] != 0 {
                lemma_wire_follows_scratch::<P>(wire, squeezed, next, min, far, spots.push(pos));
            }
        } else if wire[pos] >= 0xC0 && squeezed && pos + 1 < wire.len() {
            let target = crate::dnsname::scan::pointer_target(wire[pos], wire[pos + 1]);
            let far = if end < pos + 2 {
                pos + 2
            } else {
                end
            };
            if target < wire.len() && wire[target] < 0xC0 && target < min {
                lemma_wire_follows_scratch::<P>(wire, squeezed, target, target, far, spots);
            }
        }
    }
}

/// Where wire labels read a name, a scratch name reads the same name in
/// lower case, and ends at the same place.
pub proof fn lemma_parsers_agree<'w, P: WirePos>(wire: Seq<u8>, pos: int)
    requires
        <WireLabels<'w, P> as FromWire<'w>>::parsed(wire, pos) is Ok,
    ensures
        <ScratchName as FromWire<'w>>::parsed(wire, pos) == Ok::<(Seq<Seq<u8>>, int), Error>(
            (
                lower_name(<WireLabels<'w, P> as FromWire<'w>>::parsed(wire, pos).unwrap().0),
                <WireLabels<'w, P> as FromWire<'w>>::parsed(wire, pos).unwrap().1,
            ),
        ),
{
    lemma_scratch_follows_wire::<P>(wire, true, pos, pos, pos, Seq::empty());
}

} // verus!
