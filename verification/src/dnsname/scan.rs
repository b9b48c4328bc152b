//! The walk along a name on the wire
//!
//! One state machine reads both uncompressed names and names inside a DNS
//! message. It looks at one length byte after the other, follows compression
//! pointers where they are allowed, and hands each label to a sink, which
//! may refuse it. The walk itself keeps nothing but three positions.

use crate::dnsname::Dodgy;
use crate::dnsname::MAX_LLEN;
use crate::error::Error;
use vstd::prelude::*;

verus! {

/// The text of the label whose length byte is at `pos`.
pub open spec fn label_at(wire: Seq<u8>, pos: int) -> Seq<u8> {
    wire.subrange(pos + 1, pos + 1 + wire[pos])
}

/// The texts of the labels whose length bytes are at `spots`.
pub open spec fn labels_at(wire: Seq<u8>, spots: Seq<int>) -> Seq<Seq<u8>> {
    Seq::new(spots.len(), |i: int| label_at(wire, spots[i]))
}

/// The length on the wire of the labels at `spots`, uncompressed.
pub open spec fn spots_len(wire: Seq<u8>, spots: Seq<int>) -> int
    decreases spots.len(),
{
    if spots.len() == 0 {
        0
    } else {
        spots_len(wire, spots.drop_last()) + 1 + wire[spots.last()]
    }
}

/// Every label at `spots` lies inside the wire and is no longer than a
/// label may be.
pub open spec fn spots_inside(wire: Seq<u8>, spots: Seq<int>) -> bool {
    forall|i: int|
        0 <= i < spots.len() ==> 0 <= (#[trigger] spots[i]) < wire.len() && wire[spots[i]]
            <= MAX_LLEN && spots[i] + wire[spots[i]] < wire.len()
}

/// The labels at `spots` are those of a whole name: the last is the root
/// label, and no other is empty.
pub open spec fn spots_whole(wire: Seq<u8>, spots: Seq<int>) -> bool {
    &&& spots.len() >= 1
    &&& spots_inside(wire, spots)
    &&& wire[spots.last()] == 0
    &&& forall|i: int| 0 <= i < spots.len() - 1 ==> wire[#[trigger] spots[i]] >= 1
}

/// Where a compression pointer points: the low six bits of its first byte
/// and all of its second, fourteen bits together.
pub open spec fn pointer_target(hi: u8, lo: u8) -> int {
    (hi - 0xC0) * 256 + lo
}

/// The bytes that are left from `pos` to the end of the wire.
pub open spec fn room(wire: Seq<u8>, pos: int) -> nat {
    if 0 <= pos < wire.len() {
        (wire.len() - pos) as nat
    } else {
        0
    }
}

/// Something that collects the labels of a name while it is read from the
/// wire.
pub trait LabelFromWire: Sized {
    /// The sink holds the labels at `spots` of `wire`, and nothing else.
    spec fn holds(&self, wire: Seq<u8>, spots: Seq<int>) -> bool;

    /// Why the sink, holding the labels at `spots`, does not take the label
    /// at `pos` as well; `None` where it takes it.
    spec fn refusal(wire: Seq<u8>, spots: Seq<int>, pos: int) -> Option<Error>;

    /// Take the label whose length byte `llen` is at `pos`, or refuse it.
    fn label_from_wire(
        &mut self,
        dodgy: Dodgy,
        pos: usize,
        llen: u8,
        Ghost(spots): Ghost<Seq<int>>,
    ) -> (r: Result<(), Error>)
        requires
            old(self).holds(dodgy.bytes@, spots),
            pos < dodgy.bytes@.len(),
            dodgy.bytes@[pos as int] == llen,
            llen <= MAX_LLEN,
        ensures
            match r {
                Ok(()) => {
                    &&& Self::refusal(dodgy.bytes@, spots, pos as int) is None
                    &&& final(self).holds(dodgy.bytes@, spots.push(pos as int))
                },
                Err(e) => Self::refusal(dodgy.bytes@, spots, pos as int) == Some(e),
            },
    ;
}

/// What the walk comes to when it stands at `pos`, has gone no further than
/// `end`, may follow pointers only to below `min`, and the sink holds the
/// labels at `spots`.
///
/// A byte up to `0x3F` is the length of a label: the sink is offered the
/// label, and the walk ends behind the root label. A byte from `0x40` to
/// `0xBF` is a label type that does not exist. A byte from `0xC0` on starts
/// a compression pointer, which is refused at once unless the name is
/// `squeezed`; its target must lie inside the wire, must not be a pointer
/// in turn, and must lie below `min`.
///
/// The result is the positions of all labels and the index behind the last
/// byte that belongs to the name where the walk began.
pub open spec fn scan<L: LabelFromWire>(
    wire: Seq<u8>,
    squeezed: bool,
    pos: int,
    min: int,
    end: int,
    spots: Seq<int>,
) -> Result<(Seq<int>, int), Error>
    decreases min, room(wire, pos),
{
    if !(0 <= pos < wire.len()) {
        Err(Error::NameTruncated)
    } else if wire[pos] <= MAX_LLEN {
        let next = pos + 1 + wire[pos];
        let far = if end < next {
            next
        } else {
            end
        };
        match L::refusal(wire, spots, pos) {
            Some(e) => Err(e),
            None => if wire[pos] == 0 {
                Ok((spots.push(pos), far))
            } else {
                scan::<L>(wire, squeezed, next, min, far, spots.push(pos))
            },
        }
    } else if wire[pos] < 0xC0 {
        Err(Error::LabelType(wire[pos]))
    } else if !squeezed {
        Err(Error::CompressBad)
    } else if pos + 1 >= wire.len() {
        Err(Error::NameTruncated)
    } else {
        let target = pointer_target(wire[pos], wire[pos + 1]);
        let far = if end < pos + 2 {
            pos + 2
        } else {
            end
        };
        if target >= wire.len() {
            Err(Error::NameTruncated)
        } else if wire[target] >= 0xC0 {
            Err(Error::CompressChain)
        } else if min <= target {
            Err(Error::CompressBad)
        } else {
            scan::<L>(wire, squeezed, target, target, far, spots)
        }
    }
}

/// What reading a name that starts at `pos` comes to.
pub open spec fn scan_name<L: LabelFromWire>(wire: Seq<u8>, squeezed: bool, pos: int) -> Result<
    (Seq<int>, int),
    Error,
> {
    scan::<L>(wire, squeezed, pos, pos, pos, Seq::empty())
}

/// Read the name that starts at `start` into `sink`, label by label.
///
/// On success the result is the index behind the name, where a caller goes
/// on reading what follows it. The sink then holds the labels of a whole
/// name, all of which lie inside the wire.
pub fn dodgy_from_wire<L: LabelFromWire>(
    sink: &mut L,
    dodgy: Dodgy,
    start: usize,
    squeezed: bool,
) -> (r: Result<usize, Error>)
    requires
        old(sink).holds(dodgy.bytes@, Seq::empty()),
    ensures
        match scan_name::<L>(dodgy.bytes@, squeezed, start as int) {
            Ok((spots, end)) => {
                &&& r matches Ok(index) && index == end
                &&& end <= dodgy.bytes@.len()
                &&& final(sink).holds(dodgy.bytes@, spots)
                &&& spots_whole(dodgy.bytes@, spots)
            },
            Err(e) => r == Err::<usize, Error>(e),
        },
{
    let ghost wire = dodgy.bytes@;
    let ghost mut spots: Seq<int> = Seq::empty();
    let mut pos = start;
    let mut min = start;
    let mut end = start;
    let len = dodgy.bytes.len();
    loop
        invariant
            wire == dodgy.bytes@,
            len == wire.len(),
            sink.holds(wire, spots),
            spots_inside(wire, spots),
            forall|i: int| 0 <= i < spots.len() ==> wire[#[trigger] spots[i]] >= 1,
            end == start || end <= wire.len(),
            scan::<L>(wire, squeezed, pos as int, min as int, end as int, spots) == scan_name::<L>(
                wire,
                squeezed,
                start as int,
            ),
        decreases min, room(wire, pos as int),
    {
        let byte = match dodgy.get(pos) {
            Ok(byte) => byte,
            Err(e) => {
                return Err(e);
            },
        };
        if byte <= 0x3F {
            match sink.label_from_wire(dodgy, pos, byte, Ghost(spots)) {
                Ok(()) => {},
                Err(e) => {
                    assert(scan::<L>(wire, squeezed, pos as int, min as int, end as int, spots)
                        == Err::<(Seq<int>, int), Error>(e));
                    return Err(e);
                },
            }
            proof {
                spots = spots.push(pos as int);
            }
            if byte == 0 {
                if end < pos + 1 {
                    end = pos + 1;
                }
                return Ok(end);
            }
            if byte as usize >= len - pos - 1 {
                // the next length byte is missing
                assert(scan::<L>(
                    wire,
                    squeezed,
                    pos + 1 + byte,
                    min as int,
                    if end < pos + 1 + byte { pos + 1 + byte } else { end as int },
                    spots,
                ) == Err::<(Seq<int>, int), Error>(Error::NameTruncated));
                return Err(Error::NameTruncated);
            }
            pos = pos + 1 + byte as usize;
            if end < pos {
                end = pos;
            }
        } else if byte < 0xC0 {
            return Err(Error::LabelType(byte));
        } else {
            if !squeezed {
                return Err(Error::CompressBad);
            }
            let lo = match dodgy.get(pos + 1) {
                Ok(lo) => lo,
                Err(e) => {
                    return Err(e);
                },
            };
            let target: usize = (byte - 0xC0) as usize * 256 + lo as usize;
            let head = match dodgy.get(target) {
                Ok(head) => head,
                Err(e) => {
                    return Err(e);
                },
            };
            if head >= 0xC0 {
                return Err(Error::CompressChain);
            }
            if min <= target {
                return Err(Error::CompressBad);
            }
            if end < pos + 2 {
                end = pos + 2;
            }
            pos = target;
            min = target;
        }
    }
}

} // verus!
