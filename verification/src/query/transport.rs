//! Framing of replies: one datagram, or several fragments that arrive in any order.
//!
//! Nothing here touches a socket. `Transfer` says after each datagram what to ask
//! of the socket next, and hands out the payload once the reply is whole.

use crate::error::Error;
use crate::wire::{le_i16, le_i32, read_i16, read_i32};
use vstd::prelude::*;
use vstd::slice::slice_subrange;

verus! {

/// The frame header of a reply that fits in one datagram.
pub const SINGLE_PACKET: i32 = -1;

/// The frame header of a reply that is split into fragments.
pub const MULTI_PACKET: i32 = -2;

/// The largest datagram of the protocol, in bytes.
pub const MAX_PACKET_SIZE: usize = 1400;

/// The length of a frame header, which is also the length of the header that opens
/// the payload of a reassembled reply.
pub const FRAME_HEADER_LEN: usize = 4;

/// The length of the header of a fragment.
pub const FRAGMENT_HEADER_LEN: usize = 12;

/// The number of sequence numbers that a fragment can carry.
pub const SEQUENCE_NUMBERS: usize = 256;

/// One fragment of a reply: its sequence number and the bytes it carries.
#[derive(Debug, Clone, PartialEq, Eq)]
pub struct Fragment {
    pub number: u8,
    pub payload: Vec<u8>,
}

/// What a datagram means as a fragment of the response `id`: its sequence number and
/// its payload. The identifier stands in bytes 4 to 8, the sequence number in byte 10,
/// the payload from byte 12 on. The identifier is looked at first, so a datagram of 8
/// to 11 bytes with another identifier is a mismatch, not a truncation.
pub open spec fn fragment_of(datagram: Seq<u8>, id: i32) -> Result<(u8, Seq<u8>), Error> {
    if datagram.len() < 8 {
        Err(Error::Truncated)
    } else if le_i32(datagram.skip(4)) != id {
        Err(Error::FragmentMismatch)
    } else if datagram.len() < FRAGMENT_HEADER_LEN {
        Err(Error::Truncated)
    } else {
        Ok((datagram[10], datagram.skip(FRAGMENT_HEADER_LEN as int)))
    }
}

impl Fragment {
    /// Reads a datagram as a fragment of the response `id`.
    pub fn parse(datagram: &[u8], id: i32) -> (r: Result<Fragment, Error>)
        ensures
            match fragment_of(datagram@, id) {
                Ok((number, payload)) => r matches Ok(f) && f.number == number && f.payload@
                    == payload,
                Err(e) => r matches Err(f) && f == e,
            },
    {
        if datagram.len() < 8 {
            return Err(Error::Truncated);
        }
        let found = read_i32(slice_subrange(datagram, 4, 8));
        if found != id {
            return Err(Error::FragmentMismatch);
        }
        if datagram.len() < FRAGMENT_HEADER_LEN {
            return Err(Error::Truncated);
        }
        let number = datagram[10];
        let mut payload: Vec<u8> = Vec::new();
        payload.extend_from_slice(slice_subrange(datagram, FRAGMENT_HEADER_LEN, datagram.len()));
        assert(payload@ =~= datagram@.skip(FRAGMENT_HEADER_LEN as int));
        Ok(Fragment { number, payload })
    }
}

/// The payload in slot `n`, or no bytes where the slot is empty.
pub open spec fn piece(slots: Seq<Option<Seq<u8>>>, n: int) -> Seq<u8> {
    match slots[n] {
        Some(payload) => payload,
        None => Seq::empty(),
    }
}

/// The payloads in the slots below `upto`, one after the other in ascending order of
/// their sequence numbers.
pub open spec fn joined(slots: Seq<Option<Seq<u8>>>, upto: int) -> Seq<u8>
    decreases upto,
{
    if upto <= 0 {
        Seq::empty()
    } else {
        joined(slots, upto - 1) + piece(slots, upto - 1)
    }
}

/// A reply in reassembly, as a mathematical value.
pub struct ReassemblyView {
    /// The identifier that every fragment must carry.
    pub id: i32,
    /// The number of fragments that make up the reply.
    pub total: u8,
    /// The size of the datagrams that the fragments arrive in.
    pub size: usize,
    /// The number of fragments taken in so far. It stops at `total`, where the reply
    /// is complete.
    pub received: u8,
    /// Whether a fragment came with a sequence number that had come before.
    pub repeated: bool,
    /// For each sequence number, the payload of the first fragment that carried it, if
    /// one has arrived.
    pub slots: Seq<Option<Seq<u8>>>,
}

/// What the first twelve bytes of a fragment announce: the identifier in bytes 4 to 8,
/// the number of fragments in byte 8, the datagram size in bytes 10 to 12. A negative
/// size is refused.
pub open spec fn announced(header: Seq<u8>) -> Result<ReassemblyView, Error> {
    if header.len() < FRAGMENT_HEADER_LEN {
        Err(Error::Truncated)
    } else if le_i16(header.skip(10)) < 0 {
        Err(Error::InvalidResponse)
    } else {
        Ok(
            ReassemblyView {
                id: le_i32(header.skip(4)) as i32,
                total: header[8],
                size: le_i16(header.skip(10)) as usize,
                received: 0,
                repeated: false,
                slots: Seq::new(SEQUENCE_NUMBERS as nat, |n: int| None),
            },
        )
    }
}

impl ReassemblyView {
    /// One slot for each sequence number.
    pub open spec fn wf(self) -> bool {
        self.slots.len() == SEQUENCE_NUMBERS
    }

    /// Whether as many fragments have arrived as the reply is made of.
    pub open spec fn complete(self) -> bool {
        self.received >= self.total
    }

    /// The reassembly with one more fragment taken in. The payload goes to the slot
    /// `number`; where that slot is taken, the slot stays as it is and the repeat is
    /// noted.
    pub open spec fn with(self, number: u8, payload: Seq<u8>) -> ReassemblyView {
        ReassemblyView {
            received: if self.received < self.total {
                (self.received + 1) as u8
            } else {
                self.received
            },
            repeated: self.repeated || self.slots[number as int] is Some,
            slots: if self.slots[number as int] is Some {
                self.slots
            } else {
                self.slots.update(number as int, Some(payload))
            },
            ..self
        }
    }

    /// The reassembly after `datagram` arrived. The identifier is checked on every
    /// datagram; a repeated sequence number is no error here, it is noted and decides
    /// when the payload is asked for.
    pub open spec fn accept(self, datagram: Seq<u8>) -> Result<ReassemblyView, Error> {
        match fragment_of(datagram, self.id) {
            Err(e) => Err(e),
            Ok((number, payload)) => Ok(self.with(number, payload)),
        }
    }

    /// The payload of the reply: the payloads of the fragments in ascending order of
    /// their sequence numbers, without the four header bytes that open them. Where a
    /// sequence number was repeated there is no such order, and the reply is refused
    /// with `DuplicateFragment`.
    pub open spec fn payload(self) -> Result<Seq<u8>, Error> {
        let whole = joined(self.slots, SEQUENCE_NUMBERS as int);
        if self.repeated {
            Err(Error::DuplicateFragment)
        } else if whole.len() < FRAME_HEADER_LEN {
            Err(Error::Truncated)
        } else {
            Ok(whole.skip(FRAME_HEADER_LEN as int))
        }
    }
}

/// The views of the payloads in `slots`.
pub open spec fn slot_views(slots: Seq<Option<Vec<u8>>>) -> Seq<Option<Seq<u8>>> {
    Seq::new(
        slots.len(),
        |n: int|
            match slots[n] {
                Some(payload) => Some(payload@),
                None => None,
            },
    )
}

/// A reply in reassembly: what its first fragment announced, and the payloads that
/// have arrived, each in the slot of its sequence number.
#[derive(Debug)]
pub struct Reassembly {
    id: i32,
    total: u8,
    size: usize,
    received: u8,
    repeated: bool,
    slots: Vec<Option<Vec<u8>>>,
}

impl View for Reassembly {
    type V = ReassemblyView;

    closed spec fn view(&self) -> ReassemblyView {
        ReassemblyView {
            id: self.id,
            total: self.total,
            size: self.size,
            received: self.received,
            repeated: self.repeated,
            slots: slot_views(self.slots@),
        }
    }
}

impl Reassembly {
    #[verifier::type_invariant]
    spec fn inv(&self) -> bool {
        self.slots@.len() == SEQUENCE_NUMBERS
    }

    /// Starts the reassembly that the first twelve bytes of a fragment announce.
    pub fn begin(header: &[u8]) -> (r: Result<Reassembly, Error>)
        ensures
            match announced(header@) {
                Ok(view) => r matches Ok(reassembly) && reassembly@ == view,
                Err(e) => r matches Err(f) && f == e,
            },
    {
        if header.len() < FRAGMENT_HEADER_LEN {
            return Err(Error::Truncated);
        }
        let id = read_i32(slice_subrange(header, 4, 8));
        let total = header[8];
        let size = read_i16(slice_subrange(header, 10, 12));
        if size < 0 {
            return Err(Error::InvalidResponse);
        }
        let mut slots: Vec<Option<Vec<u8>>> = Vec::new();
        while slots.len() < SEQUENCE_NUMBERS
            invariant
                slots@.len() <= SEQUENCE_NUMBERS,
                forall|n: int| 0 <= n < slots@.len() ==> slots@[n] is None,
            decreases SEQUENCE_NUMBERS - slots@.len(),
        {
            slots.push(None);
        }
        let reassembly = Reassembly {
            id,
            total,
            size: size as usize,
            received: 0,
            repeated: false,
            slots,
        };
        assert(reassembly@.slots =~= Seq::new(SEQUENCE_NUMBERS as nat, |n: int| None));
        Ok(reassembly)
    }

    /// Takes in one datagram, and gives the reassembly back with the fragment counted
    /// and, where its slot was empty, in its slot. An error ends the reassembly.
    pub fn accept(self, datagram: &[u8]) -> (r: Result<Reassembly, Error>)
        ensures
            match self@.accept(datagram@) {
                Ok(view) => r matches Ok(next) && next@ == view && next@.wf(),
                Err(e) => r matches Err(f) && f == e,
            },
    {
        proof {
            use_type_invariant(&self);
        }
        let fragment = Fragment::parse(datagram, self.id)?;
        let at = fragment.number as usize;
        let ghost before = slot_views(self.slots@);
        let Reassembly { id, total, size, received, repeated, mut slots } = self;
        let received = if received < total {
            received + 1
        } else {
            received
        };
        if slots[at].is_some() {
            assert(slot_views(slots@) =~= before);
            return Ok(Reassembly { id, total, size, received, repeated: true, slots });
        }
        slots.set(at, Some(fragment.payload));
        assert(slot_views(slots@) =~= before.update(at as int, Some(fragment.payload@)));
        Ok(Reassembly { id, total, size, received, repeated, slots })
    }

    /// Whether as many fragments have arrived as the reply is made of.
    pub fn is_complete(&self) -> (done: bool)
        ensures
            done == self@.complete(),
    {
        self.received >= self.total
    }

    /// The size of the datagrams that the fragments arrive in.
    pub fn fragment_size(&self) -> (size: usize)
        ensures
            size == self@.size,
    {
        self.size
    }

    /// Joins the payloads that have arrived, in ascending order of their sequence
    /// numbers, and strips the four header bytes that open them. Fails with
    /// `DuplicateFragment` where a sequence number was repeated, and with `Truncated`
    /// where fewer than four bytes have arrived.
    pub fn finish(&self) -> (r: Result<Vec<u8>, Error>)
        ensures
            match self@.payload() {
                Ok(payload) => r matches Ok(bytes) && bytes@ == payload,
                Err(e) => r matches Err(f) && f == e,
            },
    {
        proof {
            use_type_invariant(self);
        }
        if self.repeated {
            return Err(Error::DuplicateFragment);
        }
        let mut whole: Vec<u8> = Vec::new();
        let mut n: usize = 0;
        while n < SEQUENCE_NUMBERS
            invariant
                n <= SEQUENCE_NUMBERS,
                self.slots@.len() == SEQUENCE_NUMBERS,
                whole@ == joined(slot_views(self.slots@), n as int),
            decreases SEQUENCE_NUMBERS - n,
        {
            match &self.slots[n] {
                Some(payload) => {
                    whole.extend_from_slice(payload.as_slice());
                },
                None => {
                    assert(whole@ + Seq::<u8>::empty() =~= whole@);
                },
            }
            n = n + 1;
        }
        if whole.len() < FRAME_HEADER_LEN {
            return Err(Error::Truncated);
        }
        let payload = whole.split_off(FRAME_HEADER_LEN);
        assert(payload@ =~= joined(slot_views(self.slots@), SEQUENCE_NUMBERS as int).skip(
            FRAME_HEADER_LEN as int,
        ));
        Ok(payload)
    }
}

/// Where the exchange of one request for one reply stands.
#[derive(Debug)]
pub enum Transfer {
    /// The request is sent; the first four bytes of the reply are awaited.
    Header,
    /// The reply fits in one datagram, which is awaited.
    Single,
    /// The reply is split; the first twelve bytes of its first fragment are awaited.
    MultiHeader,
    /// The fragments are coming in.
    Fragments(Reassembly),
}

/// A `Transfer` as a mathematical value.
pub enum TransferView {
    Header,
    Single,
    MultiHeader,
    Fragments(ReassemblyView),
}

impl View for Transfer {
    type V = TransferView;

    open spec fn view(&self) -> TransferView {
        match self {
            Transfer::Header => TransferView::Header,
            Transfer::Single => TransferView::Single,
            Transfer::MultiHeader => TransferView::MultiHeader,
            Transfer::Fragments(reassembly) => TransferView::Fragments(reassembly@),
        }
    }
}

/// What to do next in a transfer.
#[derive(Debug)]
pub enum Step {
    /// Look at the first bytes of the next datagram, as many as the number says,
    /// without taking the datagram from the socket; then advance the transfer with them.
    Peek(Transfer, usize),
    /// Take the next datagram from the socket, up to as many bytes as the number says;
    /// then advance the transfer with the bytes that came.
    Receive(Transfer, usize),
    /// The reply is whole: this is its payload.
    Deliver(Vec<u8>),
}

/// A `Step` as a mathematical value.
pub enum StepView {
    Peek(TransferView, usize),
    Receive(TransferView, usize),
    Deliver(Seq<u8>),
}

impl View for Step {
    type V = StepView;

    open spec fn view(&self) -> StepView {
        match self {
            Step::Peek(transfer, n) => StepView::Peek(transfer@, *n),
            Step::Receive(transfer, n) => StepView::Receive(transfer@, *n),
            Step::Deliver(payload) => StepView::Deliver(payload@),
        }
    }
}

/// The step after a fragment was taken in: the payload where the reply is whole,
/// else one more datagram.
pub open spec fn proceed(reassembly: ReassemblyView) -> Result<StepView, Error> {
    if reassembly.complete() {
        match reassembly.payload() {
            Ok(payload) => Ok(StepView::Deliver(payload)),
            Err(e) => Err(e),
        }
    } else {
        Ok(StepView::Receive(TransferView::Fragments(reassembly), reassembly.size))
    }
}

/// The step that follows when the bytes `event` come back from the socket.
///
/// A header of -1 announces a reply in one datagram, whose payload is the datagram
/// without its first four bytes. A header of -2 announces fragments: the first twelve
/// bytes of the first one say how many there are, and each datagram that follows is
/// taken in until that many have arrived. Any other header is refused.
pub open spec fn step(transfer: TransferView, event: Seq<u8>) -> Result<StepView, Error> {
    match transfer {
        TransferView::Header => {
            if event.len() >= FRAME_HEADER_LEN && le_i32(event) == SINGLE_PACKET {
                Ok(StepView::Receive(TransferView::Single, MAX_PACKET_SIZE))
            } else if event.len() >= FRAME_HEADER_LEN && le_i32(event) == MULTI_PACKET {
                Ok(StepView::Peek(TransferView::MultiHeader, FRAGMENT_HEADER_LEN))
            } else {
                Err(Error::UnknownPacketHeader)
            }
        },
        TransferView::Single => {
            if event.len() < FRAME_HEADER_LEN {
                Err(Error::Truncated)
            } else {
                Ok(StepView::Deliver(event.skip(FRAME_HEADER_LEN as int)))
            }
        },
        TransferView::MultiHeader => match announced(event) {
            Ok(reassembly) => proceed(reassembly),
            Err(e) => Err(e),
        },
        TransferView::Fragments(reassembly) => match reassembly.accept(event) {
            Ok(next) => proceed(next),
            Err(e) => Err(e),
        },
    }
}

fn proceed_with(reassembly: Reassembly) -> (r: Result<Step, Error>)
    ensures
        match proceed(reassembly@) {
            Ok(view) => r matches Ok(next) && next@ == view,
            Err(e) => r matches Err(f) && f == e,
        },
{
    if reassembly.is_complete() {
        let payload = reassembly.finish()?;
        Ok(Step::Deliver(payload))
    } else {
        let size = reassembly.fragment_size();
        Ok(Step::Receive(Transfer::Fragments(reassembly), size))
    }
}

impl Transfer {
    /// The step that opens a transfer, once the request is sent: look at the four
    /// bytes of the frame header.
    pub fn start() -> (first: Step)
        ensures
            first@ == StepView::Peek(TransferView::Header, FRAME_HEADER_LEN),
    {
        Step::Peek(Transfer::Header, FRAME_HEADER_LEN)
    }

    /// Advances the transfer with the bytes that came back from the socket. An error
    /// ends the transfer.
    pub fn advance(self, event: &[u8]) -> (r: Result<Step, Error>)
        ensures
            match step(self@, event@) {
                Ok(view) => r matches Ok(next) && next@ == view,
                Err(e) => r matches Err(f) && f == e,
            },
    {
        match self {
            Transfer::Header => {
                if event.len() < FRAME_HEADER_LEN {
                    return Err(Error::UnknownPacketHeader);
                }
                let header = read_i32(event);
                if header == SINGLE_PACKET {
                    Ok(Step::Receive(Transfer::Single, MAX_PACKET_SIZE))
                } else if header == MULTI_PACKET {
                    Ok(Step::Peek(Transfer::MultiHeader, FRAGMENT_HEADER_LEN))
                } else {
                    Err(Error::UnknownPacketHeader)
                }
            },
            Transfer::Single => {
                if event.len() < FRAME_HEADER_LEN {
                    return Err(Error::Truncated);
                }
                let mut payload: Vec<u8> = Vec::new();
                payload.extend_from_slice(slice_subrange(event, FRAME_HEADER_LEN, event.len()));
                assert(payload@ =~= event@.skip(FRAME_HEADER_LEN as int));
                Ok(Step::Deliver(payload))
            },
            Transfer::MultiHeader => {
                let reassembly = Reassembly::begin(event)?;
                proceed_with(reassembly)
            },
            Transfer::Fragments(reassembly) => {
                let next = reassembly.accept(event)?;
                proceed_with(next)
            },
        }
    }
}

/// A reply in one datagram loses exactly its first four bytes: the payload is what
/// follows them, whatever the datagram holds.
pub proof fn lemma_single_packet(datagram: Seq<u8>)
    requires
        datagram.len() >= FRAME_HEADER_LEN,
        le_i32(datagram) == SINGLE_PACKET,
    ensures
        step(TransferView::Header, datagram.take(FRAME_HEADER_LEN as int)) == Ok::<
            StepView,
            Error,
        >(StepView::Receive(TransferView::Single, MAX_PACKET_SIZE)),
        step(TransferView::Single, datagram) == Ok::<StepView, Error>(
            StepView::Deliver(datagram.skip(FRAME_HEADER_LEN as int)),
        ),
        datagram.skip(FRAME_HEADER_LEN as int).len() == datagram.len() - FRAME_HEADER_LEN,
{
}

/// A datagram that carries another identifier than the reply in reassembly ends the
/// transfer with `FragmentMismatch`, whatever has arrived before: nothing is delivered.
pub proof fn lemma_fragment_mismatch(reassembly: ReassemblyView, datagram: Seq<u8>)
    requires
        datagram.len() >= 8,
        le_i32(datagram.skip(4)) != reassembly.id,
    ensures
        reassembly.accept(datagram) == Err::<ReassemblyView, Error>(Error::FragmentMismatch),
        step(TransferView::Fragments(reassembly), datagram) == Err::<StepView, Error>(
            Error::FragmentMismatch,
        ),
{
}

/// The reassembly after each of `datagrams` arrived, in their order, or the first
/// error that one of them met.
pub open spec fn accept_all(reassembly: ReassemblyView, datagrams: Seq<Seq<u8>>) -> Result<
    ReassemblyView,
    Error,
>
    decreases datagrams.len(),
{
    if datagrams.len() == 0 {
        Ok(reassembly)
    } else {
        match accept_all(reassembly, datagrams.drop_last()) {
            Ok(earlier) => earlier.accept(datagrams.last()),
            Err(e) => Err(e),
        }
    }
}

/// Every datagram is a fragment of the response `id`.
pub open spec fn all_fragments(id: i32, datagrams: Seq<Seq<u8>>) -> bool {
    forall|i: int| 0 <= i < datagrams.len() ==> fragment_of(#[trigger] datagrams[i], id) is Ok
}

/// Whether one of `datagrams` carries the sequence number `n`.
pub open spec fn carried(datagrams: Seq<Seq<u8>>, n: int) -> bool {
    exists|i: int| 0 <= i < datagrams.len() && (#[trigger] datagrams[i])[10] == n
}

/// No sequence number comes twice: none was repeated before, every datagram is for a
/// slot that is still empty, and no two carry the same number.
pub open spec fn unrepeated(reassembly: ReassemblyView, datagrams: Seq<Seq<u8>>) -> bool {
    &&& !reassembly.repeated
    &&& forall|i: int|
        0 <= i < datagrams.len() ==> reassembly.slots[(#[trigger] datagrams[i])[10] as int] is None
    &&& forall|i: int, j: int|
        0 <= i < j < datagrams.len() ==> (#[trigger] datagrams[i])[10]
            != (#[trigger] datagrams[j])[10]
}

/// The count of fragments after `n` more were taken in: it goes up to `total` and
/// stops there.
pub open spec fn counted(received: u8, total: u8, n: nat) -> u8 {
    if received >= total {
        received
    } else if received + n >= total {
        total
    } else {
        (received + n) as u8
    }
}

/// What holds after a run of datagrams: the run is taken in exactly where each of
/// them is a fragment of the reply; each is counted; a repeat is noted exactly where a
/// sequence number came twice; and where none did, each payload stands in its own slot
/// and the other slots are as they were.
pub proof fn lemma_accepted(reassembly: ReassemblyView, datagrams: Seq<Seq<u8>>)
    requires
        reassembly.wf(),
    ensures
        accept_all(reassembly, datagrams) is Ok <==> all_fragments(reassembly.id, datagrams),
        accept_all(reassembly, datagrams) is Ok ==> ({
            let after = accept_all(reassembly, datagrams).unwrap();
            &&& after.wf()
            &&& after.id == reassembly.id
            &&& after.total == reassembly.total
            &&& after.size == reassembly.size
            &&& after.received == counted(reassembly.received, reassembly.total, datagrams.len())
            &&& after.repeated == !unrepeated(reassembly, datagrams)
            &&& unrepeated(reassembly, datagrams) ==> {
                &&& forall|i: int|
                    0 <= i < datagrams.len() ==> after.slots[(#[trigger] datagrams[i])[10] as int]
                        == Some(datagrams[i].skip(FRAGMENT_HEADER_LEN as int))
                &&& forall|n: int|
                    0 <= n < SEQUENCE_NUMBERS && !carried(datagrams, n)
                        ==> #[trigger] after.slots[n] == reassembly.slots[n]
            }
        }),
    decreases datagrams.len(),
{
    if datagrams.len() > 0 {
        let front = datagrams.drop_last();
        let last = datagrams.last();
        lemma_accepted(reassembly, front);
        assert forall|i: int| 0 <= i < front.len() implies #[trigger] front[i] == datagrams[i] by {}
        assert(datagrams[datagrams.len() - 1] == last);
        if all_fragments(reassembly.id, datagrams) {
            assert(all_fragments(reassembly.id, front));
        }
        if accept_all(reassembly, datagrams) is Ok {
            let earlier = accept_all(reassembly, front).unwrap();
            let after = accept_all(reassembly, datagrams).unwrap();
            assert(after == earlier.with(last[10], last.skip(FRAGMENT_HEADER_LEN as int)));
            assert forall|i: int| 0 <= i < datagrams.len() implies fragment_of(
                #[trigger] datagrams[i],
                reassembly.id,
            ) is Ok by {
                if i < front.len() {
                    assert(datagrams[i] == front[i]);
                }
            }
            if unrepeated(reassembly, datagrams) {
                assert(unrepeated(reassembly, front));
                assert(!carried(front, last[10] as int)) by {
                    if carried(front, last[10] as int) {
                        let i = choose|i: int|
                            0 <= i < front.len() && (#[trigger] front[i])[10] == last[10];
                        assert(datagrams[i] == front[i]);
                    }
                }
                assert(earlier.slots[last[10] as int] == reassembly.slots[last[10] as int]);
                assert forall|i: int| 0 <= i < datagrams.len() implies after.slots[(
                #[trigger] datagrams[i])[10] as int] == Some(
                    datagrams[i].skip(FRAGMENT_HEADER_LEN as int),
                ) by {
                    if i < front.len() {
                        assert(datagrams[i] == front[i]);
                        assert(front[i][10] != last[10]);
                    }
                }
                assert forall|n: int|
                    0 <= n < SEQUENCE_NUMBERS && !carried(
                        datagrams,
                        n,
                    ) implies #[trigger] after.slots[n] == reassembly.slots[n] by {
                    assert(n != last[10]);
                    if carried(front, n) {
                        let i = choose|i: int| 0 <= i < front.len() && (#[trigger] front[i])[10] == n;
                        assert(datagrams[i] == front[i]);
                    }
                }
            } else if unrepeated(reassembly, front) {
                // the repeat is the last datagram: its slot was taken before the run,
                // or an earlier datagram of the run carries its number
                if reassembly.slots[last[10] as int] is None {
                    if !carried(front, last[10] as int) {
                        assert forall|i: int| 0 <= i < datagrams.len() implies reassembly.slots[(
                        #[trigger] datagrams[i])[10] as int] is None by {
                            if i < front.len() {
                                assert(datagrams[i] == front[i]);
                            }
                        }
                        assert forall|i: int, j: int| 0 <= i < j < datagrams.len() implies (
                        #[trigger] datagrams[i])[10] != (#[trigger] datagrams[j])[10] by {
                            assert(datagrams[i] == front[i]);
                            if j < front.len() {
                                assert(datagrams[j] == front[j]);
                            }
                        }
                        assert(false);
                    }
                    let i = choose|i: int|
                        0 <= i < front.len() && (#[trigger] front[i])[10] == last[10];
                    assert(earlier.slots[front[i][10] as int] is Some);
                }
            }
        }
    }
}

/// A rearrangement of a run without a repeat has none either.
proof fn lemma_unrepeated_rearranged(
    reassembly: ReassemblyView,
    one: Seq<Seq<u8>>,
    other: Seq<Seq<u8>>,
)
    requires
        one.to_multiset() == other.to_multiset(),
        unrepeated(reassembly, one),
    ensures
        unrepeated(reassembly, other),
{
    broadcast use vstd::seq_lib::to_multiset_contains, vstd::seq_lib::to_multiset_remove;

    assert forall|x: Seq<u8>| one.contains(x) <==> other.contains(x) by {
        assert(one.contains(x) <==> one.to_multiset().count(x) > 0);
        assert(other.contains(x) <==> other.to_multiset().count(x) > 0);
    }
    assert forall|j: int| 0 <= j < other.len() implies reassembly.slots[(
    #[trigger] other[j])[10] as int] is None by {
        assert(other.contains(other[j]));
        let k = choose|k: int| 0 <= k < one.len() && one[k] == other[j];
        assert(reassembly.slots[one[k][10] as int] is None);
    }
    assert forall|i: int, j: int| 0 <= i < j < other.len() implies (#[trigger] other[i])[10] != (
    #[trigger] other[j])[10] by {
        if other[i][10] == other[j][10] {
            assert(other.contains(other[i]));
            assert(other.contains(other[j]));
            let k = choose|k: int| 0 <= k < one.len() && one[k] == other[i];
            let l = choose|l: int| 0 <= l < one.len() && one[l] == other[j];
            assert(one[k][10] == one[l][10]);
            assert(k == l);
            let x = other[i];
            // `x` stands twice in `other`, so also twice in `one`
            let rest = other.remove(j);
            assert(rest[i] == x);
            assert(rest.contains(x));
            assert(rest.to_multiset() == other.to_multiset().remove(x));
            assert(rest.to_multiset().count(x) > 0);
            let others = one.remove(k);
            assert(others.to_multiset() == one.to_multiset().remove(x));
            assert(others.to_multiset().count(x) > 0);
            assert(others.contains(x));
            let m = choose|m: int| 0 <= m < others.len() && others[m] == x;
            if m < k {
                assert(one[m] == x);
                assert(one[m][10] == one[k][10]);
            } else {
                assert(one[m + 1] == x);
                assert(one[k][10] == one[m + 1][10]);
            }
            assert(false);
        }
    }
}

/// The order in which the fragments of a reply arrive does not matter: where a run of
/// datagrams is taken in without an error, so is every rearrangement of it, and the
/// payload that results is the same. Where no sequence number came twice, the whole
/// reassembly is the same.
pub proof fn lemma_arrival_order(
    reassembly: ReassemblyView,
    in_order: Seq<Seq<u8>>,
    arrived: Seq<Seq<u8>>,
)
    requires
        reassembly.wf(),
        in_order.to_multiset() == arrived.to_multiset(),
        accept_all(reassembly, in_order) is Ok,
    ensures
        accept_all(reassembly, arrived) is Ok,
        accept_all(reassembly, arrived).unwrap().payload() == accept_all(
            reassembly,
            in_order,
        ).unwrap().payload(),
        !accept_all(reassembly, in_order).unwrap().repeated ==> accept_all(reassembly, arrived)
            == accept_all(reassembly, in_order),
{
    broadcast use vstd::seq_lib::to_multiset_contains, vstd::seq_lib::to_multiset_len;

    lemma_accepted(reassembly, in_order);
    assert forall|x: Seq<u8>| in_order.contains(x) <==> arrived.contains(x) by {
        assert(in_order.contains(x) <==> in_order.to_multiset().count(x) > 0);
        assert(arrived.contains(x) <==> arrived.to_multiset().count(x) > 0);
    }
    assert forall|j: int| 0 <= j < arrived.len() implies fragment_of(
        #[trigger] arrived[j],
        reassembly.id,
    ) is Ok by {
        assert(arrived.contains(arrived[j]));
        let k = choose|k: int| 0 <= k < in_order.len() && in_order[k] == arrived[j];
        assert(fragment_of(in_order[k], reassembly.id) is Ok);
    }
    lemma_accepted(reassembly, arrived);
    assert(in_order.len() == in_order.to_multiset().len());
    assert(arrived.len() == arrived.to_multiset().len());
    if unrepeated(reassembly, in_order) {
        lemma_unrepeated_rearranged(reassembly, in_order, arrived);
    }
    if unrepeated(reassembly, arrived) {
        lemma_unrepeated_rearranged(reassembly, arrived, in_order);
    }
    let a = accept_all(reassembly, in_order).unwrap();
    let b = accept_all(reassembly, arrived).unwrap();
    if unrepeated(reassembly, in_order) {
        assert forall|n: int| 0 <= n < SEQUENCE_NUMBERS implies a.slots[n] == b.slots[n] by {
            if carried(in_order, n) {
                let k = choose|k: int| 0 <= k < in_order.len() && (#[trigger] in_order[k])[10] == n;
                assert(in_order.contains(in_order[k]));
                let j = choose|j: int| 0 <= j < arrived.len() && arrived[j] == in_order[k];
                assert(b.slots[arrived[j][10] as int] == Some(
                    arrived[j].skip(FRAGMENT_HEADER_LEN as int),
                ));
            } else {
                if carried(arrived, n) {
                    let j = choose|j: int| 0 <= j < arrived.len() && (#[trigger] arrived[j])[10] == n;
                    assert(arrived.contains(arrived[j]));
                    let k = choose|k: int| 0 <= k < in_order.len() && in_order[k] == arrived[j];
                    assert(in_order[k][10] == n);
                }
            }
        }
        assert(a.slots =~= b.slots);
    }
}

/// A fragment with another identifier ends the run with `FragmentMismatch`, wherever
/// in the run it stands and whatever the fragments before it carry, a repeated
/// sequence number too: where every datagram before the `k`-th is a fragment of the
/// reply and the `k`-th carries another identifier, nothing is reassembled.
pub proof fn lemma_mismatch_in_run(reassembly: ReassemblyView, datagrams: Seq<Seq<u8>>, k: int)
    requires
        reassembly.wf(),
        0 <= k < datagrams.len(),
        forall|i: int|
            0 <= i < k ==> (#[trigger] datagrams[i]).len() >= FRAGMENT_HEADER_LEN && le_i32(
                datagrams[i].skip(4),
            ) == reassembly.id,
        datagrams[k].len() >= 8,
        le_i32(datagrams[k].skip(4)) != reassembly.id,
    ensures
        accept_all(reassembly, datagrams) == Err::<ReassemblyView, Error>(Error::FragmentMismatch),
    decreases datagrams.len(),
{
    let front = datagrams.drop_last();
    assert forall|i: int| 0 <= i < front.len() implies #[trigger] front[i] == datagrams[i] by {}
    if k == datagrams.len() - 1 {
        assert(all_fragments(reassembly.id, front));
        lemma_accepted(reassembly, front);
    } else {
        assert(front[k] == datagrams[k]);
        lemma_mismatch_in_run(reassembly, front, k);
    }
}

/// The step that a transfer reaches when `datagrams` arrive one after the other while
/// it takes fragments. What arrives after the reply was delivered or refused is not
/// taken.
pub open spec fn collect(reassembly: ReassemblyView, datagrams: Seq<Seq<u8>>) -> Result<
    StepView,
    Error,
>
    decreases datagrams.len(),
{
    if datagrams.len() == 0 {
        Ok(StepView::Receive(TransferView::Fragments(reassembly), reassembly.size))
    } else {
        match collect(reassembly, datagrams.drop_last()) {
            Ok(StepView::Receive(TransferView::Fragments(earlier), _)) => step(
                TransferView::Fragments(earlier),
                datagrams.last(),
            ),
            other => other,
        }
    }
}

/// While fewer fragments are in than the reply is made of, a transfer takes each
/// datagram as the reassembly does: a run that does not go beyond the announced number
/// ends in the error of the run, or where it went well in the step that follows the
/// reassembly of all of it.
pub proof fn lemma_collect(reassembly: ReassemblyView, datagrams: Seq<Seq<u8>>)
    requires
        reassembly.wf(),
        datagrams.len() > 0,
        reassembly.received + datagrams.len() <= reassembly.total,
    ensures
        collect(reassembly, datagrams) == match accept_all(reassembly, datagrams) {
            Ok(after) => proceed(after),
            Err(e) => Err(e),
        },
    decreases datagrams.len(),
{
    let front = datagrams.drop_last();
    lemma_accepted(reassembly, front);
    if front.len() > 0 {
        lemma_collect(reassembly, front);
    }
}

/// The order in which the fragments arrive does not change what the transfer
/// delivers: where the datagrams are the fragments of the reply, as many as are still
/// awaited, the transfer ends in the same step for every rearrangement of them.
pub proof fn lemma_arrival_order_delivers(
    reassembly: ReassemblyView,
    in_order: Seq<Seq<u8>>,
    arrived: Seq<Seq<u8>>,
)
    requires
        reassembly.wf(),
        in_order.to_multiset() == arrived.to_multiset(),
        all_fragments(reassembly.id, in_order),
        in_order.len() > 0,
        reassembly.received + in_order.len() == reassembly.total,
    ensures
        collect(reassembly, arrived) == collect(reassembly, in_order),
        collect(reassembly, in_order) == match accept_all(reassembly, in_order).unwrap().payload() {
            Ok(payload) => Ok::<StepView, Error>(StepView::Deliver(payload)),
            Err(e) => Err(e),
        },
{
    broadcast use vstd::seq_lib::to_multiset_len;

    assert(in_order.len() == in_order.to_multiset().len());
    assert(arrived.len() == arrived.to_multiset().len());
    lemma_accepted(reassembly, in_order);
    lemma_arrival_order(reassembly, in_order, arrived);
    lemma_accepted(reassembly, arrived);
    lemma_collect(reassembly, in_order);
    lemma_collect(reassembly, arrived);
}

/// A fragment with another identifier ends the transfer with `FragmentMismatch` and
/// nothing is delivered: where the reply is not yet whole when the `k`-th datagram
/// arrives, every datagram before it is a fragment of the reply, and the `k`-th
/// carries another identifier.
pub proof fn lemma_mismatch_ends_transfer(
    reassembly: ReassemblyView,
    datagrams: Seq<Seq<u8>>,
    k: int,
)
    requires
        reassembly.wf(),
        0 <= k < datagrams.len(),
        reassembly.received + k < reassembly.total,
        forall|i: int|
            0 <= i < k ==> (#[trigger] datagrams[i]).len() >= FRAGMENT_HEADER_LEN && le_i32(
                datagrams[i].skip(4),
            ) == reassembly.id,
        datagrams[k].len() >= 8,
        le_i32(datagrams[k].skip(4)) != reassembly.id,
    ensures
        collect(reassembly, datagrams) == Err::<StepView, Error>(Error::FragmentMismatch),
    decreases datagrams.len(),
{
    let front = datagrams.drop_last();
    assert forall|i: int| 0 <= i < front.len() implies #[trigger] front[i] == datagrams[i] by {}
    if k == datagrams.len() - 1 {
        lemma_mismatch_in_run(reassembly, datagrams, k);
        lemma_collect(reassembly, datagrams);
    } else {
        assert(front[k] == datagrams[k]);
        lemma_mismatch_ends_transfer(reassembly, front, k);
    }
}

} // verus!
