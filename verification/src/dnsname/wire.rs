//! Positions of labels on the wire
//!
//! This kind of name has been parsed from a DNS message but it has not been
//! copied: it keeps the position of each label and borrows the wire. It is
//! for use when a name cannot be dealt with in one pass, and its labels have
//! to be found before their contents are looked at.
//!
//! The type of the positions is a parameter, so that an uncompressed name
//! can keep a byte for each, which is less than the two bytes that a
//! position in a message needs.

use crate::dnsname::DnsLabels;
use crate::dnsname::Dodgy;
use crate::dnsname::FromWire;
use crate::dnsname::MAX_LABS;
use crate::dnsname::MAX_NAME;
use crate::dnsname::scan::dodgy_from_wire;
use crate::dnsname::scan::LabelFromWire;
use crate::dnsname::scan::labels_at;
use crate::dnsname::scan::room;
use crate::dnsname::scan::scan;
use crate::dnsname::scan::scan_name;
use crate::dnsname::scan::spots_inside;
use crate::dnsname::scan::spots_len;
use crate::dnsname::scan::spots_whole;
use crate::dnsname::valid_name;
use crate::dnsname::wire_len;
use crate::error::Error;
use crate::scratchpad::ScratchPad;
use vstd::prelude::*;

verus! {

/// A type in which the position of a label on the wire is kept.
pub trait WirePos: Copy {
    /// The position that the value stands for.
    spec fn index(self) -> int;

    /// The position can be kept in this type.
    spec fn fits(pos: int) -> bool;

    /// The error for a position that cannot be kept in this type.
    spec fn misfit(pos: usize) -> Error;

    /// Keep a position, if it fits.
    fn from_usize(pos: usize) -> (r: Result<Self, Error>)
        ensures
            match r {
                Ok(kept) => Self::fits(pos as int) && kept.index() == pos,
                Err(e) => !Self::fits(pos as int) && e == Self::misfit(pos),
            },
    ;

    /// The position that was kept.
    fn into_usize(self) -> (pos: usize)
        ensures
            pos == self.index(),
    ;
}

impl WirePos for u8 {
    open spec fn index(self) -> int {
        self as int
    }

    open spec fn fits(pos: int) -> bool {
        pos <= u8::MAX
    }

    open spec fn misfit(pos: usize) -> Error {
        Error::WideWire
    }

    fn from_usize(pos: usize) -> (r: Result<Self, Error>) {
        if pos <= 0xFF {
            Ok(pos as u8)
        } else {
            Err(Error::WideWire)
        }
    }

    fn into_usize(self) -> (pos: usize) {
        self as usize
    }
}

impl WirePos for u16 {
    open spec fn index(self) -> int {
        self as int
    }

    open spec fn fits(pos: int) -> bool {
        pos <= u16::MAX
    }

    open spec fn misfit(pos: usize) -> Error {
        Error::BugWirePos(pos)
    }

    fn from_usize(pos: usize) -> (r: Result<Self, Error>) {
        if pos <= 0xFFFF {
            Ok(pos as u16)
        } else {
            Err(Error::BugWirePos(pos))
        }
    }

    fn into_usize(self) -> (pos: usize) {
        self as usize
    }
}

/// The labels that lie inside the wire take as many bytes, uncompressed, as
/// their length bytes say.
pub proof fn lemma_spots_len(wire: Seq<u8>, spots: Seq<int>)
    requires
        spots_inside(wire, spots),
    ensures
        wire_len(labels_at(wire, spots)) == spots_len(wire, spots),
    decreases spots.len(),
{
    if spots.len() > 0 {
        lemma_spots_len(wire, spots.drop_last());
        assert(labels_at(wire, spots).drop_last() =~= labels_at(wire, spots.drop_last()));
        assert(spots.last() == spots[spots.len() - 1]);
    }
}

/// A whole name that keeps within the limits on labels and bytes is valid.
pub proof fn lemma_spots_valid(wire: Seq<u8>, spots: Seq<int>)
    requires
        spots_whole(wire, spots),
        spots.len() <= MAX_LABS,
        spots_len(wire, spots) <= MAX_NAME,
    ensures
        valid_name(labels_at(wire, spots)),
{
    lemma_spots_len(wire, spots);
    let labels = labels_at(wire, spots);
    assert(spots.last() == spots[spots.len() - 1]);
    assert forall|i: int| 0 <= i < labels.len() - 1 implies 1 <= (#[trigger] labels[i]).len()
        <= crate::dnsname::MAX_LLEN by {
        assert(wire[spots[i]] >= 1);
    }
}

/// A name runs out of bytes before it runs out of labels: a label before
/// the root takes two bytes at least, so the 128th of them is already one
/// byte too many. Wire labels therefore never refuse a name for the number
/// of its labels, whatever is on the wire.
pub proof fn lemma_bytes_run_out_first<'w, P: WirePos>(
    wire: Seq<u8>,
    squeezed: bool,
    pos: int,
    min: int,
    end: int,
    spots: Seq<int>,
)
    requires
        2 * spots.len() <= spots_len(wire, spots) <= MAX_NAME,
        forall|at: usize| P::misfit(at) != Error::NameLabels,
    ensures
        scan::<WireLabels<'w, P>>(wire, squeezed, pos, min, end, spots) != Err::<
            (Seq<int>, int),
            Error,
        >(Error::NameLabels),
    decreases min, room(wire, pos),
{
    if 0 <= pos < wire.len() {
        if wire[pos] <= crate::dnsname::MAX_LLEN {
            let next = pos + 1 + wire[pos];
            let far = if end < next {
                next
            } else {
                end
            };
            let more = spots.push(pos);
            assert(more.drop_last() =~= spots);
            if <WireLabels<'w, P> as LabelFromWire>::refusal(wire, spots, pos) is None
                && wire[pos] != 0 {
                lemma_bytes_run_out_first::<P>(wire, squeezed, next, min, far, more);
            }
        } else if wire[pos] >= 0xC0 && squeezed && pos + 1 < wire.len() {
            let target = crate::dnsname::scan::pointer_target(wire[pos], wire[pos + 1]);
            let far = if end < pos + 2 {
                pos + 2
            } else {
                end
            };
            if target < wire.len() && wire[target] < 0xC0 && target < min {
                lemma_bytes_run_out_first::<P>(wire, squeezed, target, target, far, spots);
            }
        }
    }
}

/// The labels of a name where they lie on the wire.
#[derive(Debug)]
pub struct WireLabels<'w, P: WirePos> {
    lpos: ScratchPad<P, MAX_LABS>,
    nlen: usize,
    wire: Option<&'w [u8]>,
}

impl<'w, P: WirePos> WireLabels<'w, P> {
    /// The position of each label's length byte on the wire.
    pub closed spec fn spots(&self) -> Seq<int> {
        self.lpos@.map_values(|p: P| p.index())
    }

    /// The wire that the name was read from, if one was.
    pub closed spec fn borrowed(&self) -> Option<Seq<u8>> {
        match self.wire {
            Some(wire) => Some(wire@),
            None => None,
        }
    }

    /// The length that is kept for the name.
    pub closed spec fn total(&self) -> int {
        self.nlen as int
    }

    /// No labels, and no wire.
    pub fn new() -> (name: Self)
        ensures
            name.wf(),
            name.labels().len() == 0,
            name.borrowed() is None,
    {
        let name = WireLabels { lpos: ScratchPad::new(), nlen: 0, wire: None };
        assert(name.spots() =~= Seq::empty());
        name
    }

    /// Forget the name, and let go of the wire.
    pub fn clear(&mut self)
        ensures
            final(self).wf(),
            final(self).labels().len() == 0,
            final(self).borrowed() is None,
    {
        self.lpos.clear();
        self.nlen = 0;
        self.wire = None;
        assert(self.spots() =~= Seq::empty());
    }

    /// Forget the name, and hand the error on.
    pub fn clear_err(&mut self, err: Error) -> (e: Error)
        ensures
            e == err,
            final(self).wf(),
            final(self).labels().len() == 0,
            final(self).borrowed() is None,
    {
        self.clear();
        err
    }

    /// Read the name at `pos` of `wire` in one of the two wire formats, and
    /// keep the wire. Nothing is left of a failed attempt.
    fn read(&mut self, wire: &'w [u8], pos: usize, squeezed: bool) -> (r: Result<usize, Error>)
        ensures
            final(self).wf(),
            match scan_name::<Self>(wire@, squeezed, pos as int) {
                Ok((spots, end)) => {
                    &&& r matches Ok(index) && index == end
                    &&& end <= wire@.len()
                    &&& final(self).borrowed() == Some(wire@)
                    &&& final(self).labels() == labels_at(wire@, spots)
                    &&& valid_name(final(self).labels())
                },
                Err(e) => r == Err::<usize, Error>(e) && final(self).labels().len() == 0,
            },
    {
        let dodgy = Dodgy { bytes: wire };
        self.clear();
        self.wire = Some(wire);
        assert(self.spots() =~= Seq::empty());
        match dodgy_from_wire(self, dodgy, pos, squeezed) {
            Ok(end) => {
                proof {
                    lemma_spots_valid(wire@, self.spots());
                }
                Ok(end)
            },
            Err(err) => Err(self.clear_err(err)),
        }
    }
}

impl<'w, P: WirePos> LabelFromWire for WireLabels<'w, P> {
    open spec fn holds(&self, wire: Seq<u8>, spots: Seq<int>) -> bool {
        &&& self.borrowed() == Some(wire)
        &&& self.spots() == spots
        &&& self.total() == spots_len(wire, spots)
        &&& spots.len() <= MAX_LABS
        &&& self.total() <= MAX_NAME
    }

    open spec fn refusal(wire: Seq<u8>, spots: Seq<int>, pos: int) -> Option<Error> {
        if !P::fits(pos) {
            Some(P::misfit(pos as usize))
        } else if spots.len() >= MAX_LABS {
            Some(Error::NameLabels)
        } else if spots_len(wire, spots) + 1 + wire[pos] > MAX_NAME {
            Some(Error::NameLength)
        } else {
            None
        }
    }

    fn label_from_wire(
        &mut self,
        dodgy: Dodgy,
        pos: usize,
        llen: u8,
        Ghost(spots): Ghost<Seq<int>>,
    ) -> (r: Result<(), Error>) {
        let kept = match P::from_usize(pos) {
            Ok(kept) => kept,
            Err(e) => {
                return Err(e);
            },
        };
        match self.lpos.push(kept) {
            Ok(()) => {},
            Err(_) => {
                return Err(Error::NameLabels);
            },
        }
        proof {
            let more = spots.push(pos as int);
            assert(more.drop_last() =~= spots);
            assert(self.spots() =~= more);
        }
        if self.nlen + 1 + llen as usize > MAX_NAME {
            return Err(Error::NameLength);
        }
        self.nlen = self.nlen + 1 + llen as usize;
        Ok(())
    }
}

impl<'w, P: WirePos> DnsLabels for WireLabels<'w, P> {
    open spec fn wf(&self) -> bool {
        match self.borrowed() {
            Some(wire) => {
                &&& spots_inside(wire, self.spots())
                &&& self.spots().len() <= MAX_LABS
                &&& self.total() == spots_len(wire, self.spots())
                &&& self.total() <= MAX_NAME
            },
            None => self.spots().len() == 0 && self.total() == 0,
        }
    }

    open spec fn labels(&self) -> Seq<Seq<u8>> {
        match self.borrowed() {
            Some(wire) => labels_at(wire, self.spots()),
            None => Seq::empty(),
        }
    }

    fn labs(&self) -> (labs: usize) {
        self.lpos.len()
    }

    fn nlen(&self) -> (nlen: usize) {
        proof {
            if self.wire is Some {
                lemma_spots_len(self.wire->0@, self.spots());
            }
        }
        self.nlen
    }

    fn label(&self, lab: usize) -> (label: Option<&[u8]>) {
        let lpos = self.lpos.as_slice();
        if lab < lpos.len() {
            match self.wire {
                Some(wire) => {
                    let pos = lpos[lab].into_usize();
                    assert(self.spots()[lab as int] == pos);
                    let len = wire[pos] as usize;
                    Some(vstd::slice::slice_subrange(wire, pos + 1, pos + 1 + len))
                },
                None => None,
            }
        } else {
            None
        }
    }
}

impl<'w, P: WirePos> FromWire<'w> for WireLabels<'w, P> {
    open spec fn parsed(wire: Seq<u8>, pos: int) -> Result<(Seq<Seq<u8>>, int), Error> {
        match scan_name::<Self>(wire, true, pos) {
            Ok((spots, end)) => Ok((labels_at(wire, spots), end)),
            Err(e) => Err(e),
        }
    }

    fn from_wire(&mut self, wire: &'w [u8], pos: usize) -> (r: Result<usize, Error>) {
        self.read(wire, pos, true)
    }
}

/// Parse a DNS name in uncompressed wire format, from the start of `buf`.
///
/// A compression pointer is an error here. The result borrows `buf`, and
/// its length is the number of bytes that the name took.
pub fn from_wire<'w>(buf: &'w [u8]) -> (r: Result<WireLabels<'w, u8>, Error>)
    ensures
        match scan_name::<WireLabels<'w, u8>>(buf@, false, 0) {
            Ok((spots, end)) => {
                &&& r matches Ok(name) && name.wf() && name.borrowed() == Some(buf@)
                    && name.labels() == labels_at(buf@, spots)
                &&& valid_name(labels_at(buf@, spots))
            },
            Err(e) => r matches Err(err) && err == e,
        },
{
    let mut name = WireLabels::<u8>::new();
    match name.read(buf, 0, false) {
        Ok(_) => Ok(name),
        Err(e) => Err(e),
    }
}

/// Parse a DNS name in compressed wire format.
///
/// The name starts at the given `pos` in the message `buf`, which the
/// result borrows.
pub fn from_message<'w>(buf: &'w [u8], pos: usize) -> (r: Result<WireLabels<'w, u16>, Error>)
    ensures
        match scan_name::<WireLabels<'w, u16>>(buf@, true, pos as int) {
            Ok((spots, end)) => {
                &&& r matches Ok(name) && name.wf() && name.borrowed() == Some(buf@)
                    && name.labels() == labels_at(buf@, spots)
                &&& valid_name(labels_at(buf@, spots))
            },
            Err(e) => r matches Err(err) && err == e,
        },
{
    let mut name = WireLabels::<u16>::new();
    match name.read(buf, pos, true) {
        Ok(_) => Ok(name),
        Err(e) => Err(e),
    }
}

} // verus!
