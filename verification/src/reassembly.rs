//! Putting chunked payloads together again.
//!
//! A payload that does not fit into one frame travels as `count` chunks with
//! the indices `0..count`. The receiver keeps, for each protocol key, one
//! slot per index, puts every chunk into the slot of its own index, and hands
//! the payload out when no slot is empty: the slots' contents in the order
//! of the indices.

use std::collections::HashMap;
use vstd::prelude::*;
use crate::bytes::write_all;
use crate::packet::{
    chunk_count,
    chunk_packets,
    joined_payloads,
    lemma_chunk_count_bounds,
    lemma_split_then_join,
    CutePacketType,
    MAX_CHUNKS,
    MAX_MESSAGE_SIZE,
};
use crate::wire::PacketView;

verus! {

/// The chunks received so far of one payload: one slot for each index.
pub type Slots = Seq<Option<Seq<u8>>>;

/// `count` empty slots.
pub open spec fn fresh_slots(count: nat) -> Slots {
    Seq::new(count, |i: int| None::<Seq<u8>>)
}

/// No slot is empty.
pub open spec fn all_present(slots: Slots) -> bool {
    forall|i: int| 0 <= i < slots.len() ==> (#[trigger] slots[i]) is Some
}

/// The contents of the slots, one behind the other in the order of the
/// indices; an empty slot adds nothing.
pub open spec fn joined(slots: Slots) -> Seq<u8>
    decreases slots.len(),
{
    if slots.len() == 0 {
        Seq::empty()
    } else {
        joined(slots.drop_last()) + match slots.last() {
            Some(bytes) => bytes,
            None => Seq::empty(),
        }
    }
}

/// What accepting one chunk does to the table of unfinished payloads, and
/// the payload that it completes, if it completes one.
///
/// A chunk whose index is not below its count, or whose count is more than
/// a header can state, belongs to nothing and is dropped. A chunk that is
/// alone (count 1) is its payload. Any other chunk
/// goes into the slot of its index, in the slots kept under its protocol key
/// if they are as many as its count, in fresh ones if not. When that leaves
/// no slot empty, the payload is handed out and the key leaves the table.
pub open spec fn accept_spec(
    table: Map<u32, Slots>,
    protocol: u32,
    idx: nat,
    count: nat,
    payload: Seq<u8>,
) -> (Map<u32, Slots>, Option<Seq<u8>>) {
    if idx >= count || count > MAX_CHUNKS {
        (table, None)
    } else if count == 1 {
        (table, Some(payload))
    } else {
        let known = if table.contains_key(protocol) && table[protocol].len() == count {
            table[protocol]
        } else {
            fresh_slots(count)
        };
        let slots = known.update(idx as int, Some(payload));
        if all_present(slots) {
            (table.remove(protocol), Some(joined(slots)))
        } else {
            (table.insert(protocol, slots), None)
        }
    }
}

/// What a vector of slots is in contracts.
pub open spec fn slots_view(slots: Seq<Option<Vec<u8>>>) -> Slots {
    Seq::new(
        slots.len(),
        |i: int|
            match slots[i] {
                Some(bytes) => Some(bytes@),
                None => None,
            },
    )
}

/// What an optional payload is in contracts.
pub open spec fn payload_view(payload: Option<Vec<u8>>) -> Option<Seq<u8>> {
    match payload {
        Some(bytes) => Some(bytes@),
        None => None,
    }
}

/// The unfinished payloads of one connection, by protocol key.
pub struct Reassembly {
    partials: HashMap<u32, Vec<Option<Vec<u8>>>>,
}

impl View for Reassembly {
    type V = Map<u32, Slots>;

    closed spec fn view(&self) -> Map<u32, Slots> {
        Map::new(
            |k: u32| self.partials@.contains_key(k),
            |k: u32| slots_view(self.partials@[k]@),
        )
    }
}

/// `count` empty slots.
fn empty_slots(count: usize) -> (slots: Vec<Option<Vec<u8>>>)
    ensures
        slots_view(slots@) == fresh_slots(count as nat),
{
    let mut slots: Vec<Option<Vec<u8>>> = Vec::new();
    let mut i: usize = 0;
    while i < count
        invariant
            i <= count,
            slots@.len() == i,
            forall|j: int| 0 <= j < i ==> (#[trigger] slots@[j]) is None,
        decreases count - i,
    {
        slots.push(None);
        i = i + 1;
    }
    assert(slots_view(slots@) =~= fresh_slots(count as nat));
    slots
}

/// Whether no slot is empty.
fn is_complete(slots: &Vec<Option<Vec<u8>>>) -> (complete: bool)
    ensures
        complete == all_present(slots_view(slots@)),
{
    let mut i: usize = 0;
    while i < slots.len()
        invariant
            i <= slots@.len(),
            forall|j: int| 0 <= j < i ==> (#[trigger] slots_view(slots@)[j]) is Some,
        decreases slots@.len() - i,
    {
        if slots[i].is_none() {
            assert(slots_view(slots@)[i as int] is None);
            return false;
        }
        i = i + 1;
    }
    true
}

/// The contents of the slots, one behind the other.
fn join(slots: &Vec<Option<Vec<u8>>>) -> (payload: Vec<u8>)
    ensures
        payload@ == joined(slots_view(slots@)),
{
    let mut payload: Vec<u8> = Vec::new();
    let mut i: usize = 0;
    proof {
        assert(slots_view(slots@).take(0) =~= Seq::<Option<Seq<u8>>>::empty());
    }
    while i < slots.len()
        invariant
            i <= slots@.len(),
            payload@ == joined(slots_view(slots@).take(i as int)),
        decreases slots@.len() - i,
    {
        proof {
            assert(slots_view(slots@).take(i + 1).drop_last() =~= slots_view(slots@).take(
                i as int,
            ));
        }
        match &slots[i] {
            Some(bytes) => {
                write_all(&mut payload, bytes.as_slice());
            },
            None => {
                assert(payload@ + Seq::<u8>::empty() =~= payload@);
            },
        }
        i = i + 1;
    }
    proof {
        assert(slots_view(slots@).take(i as int) =~= slots_view(slots@));
    }
    payload
}

impl Reassembly {
    /// A table without unfinished payloads.
    pub fn new() -> (r: Self)
        ensures
            r@ == Map::<u32, Slots>::empty(),
    {
        let r = Reassembly { partials: HashMap::new() };
        assert(r@ =~= Map::<u32, Slots>::empty());
        r
    }

    /// Drops every unfinished payload.
    pub fn clear(&mut self)
        ensures
            final(self)@ == Map::<u32, Slots>::empty(),
    {
        self.partials.clear();
        assert(self@ =~= Map::<u32, Slots>::empty());
    }

    /// Accepts the chunk `idx` of `count` of a payload under `protocol`, and
    /// hands out the payload that it completes, if it completes one.
    pub fn accept(&mut self, protocol: u32, idx: usize, count: usize, payload: Vec<u8>) -> (done:
        Option<Vec<u8>>)
        ensures
            (final(self)@, payload_view(done)) == accept_spec(
                old(self)@,
                protocol,
                idx as nat,
                count as nat,
                payload@,
            ),
    {
        broadcast use vstd::std_specs::hash::group_hash_axioms;

        if idx >= count || count > MAX_CHUNKS {
            return None;
        }
        if count == 1 {
            return Some(payload);
        }
        let ghost table = self@;
        let ghost given = payload@;
        let kept = self.partials.remove(&protocol);
        let mut slots = match kept {
            Some(slots) => {
                if slots.len() == count {
                    slots
                } else {
                    empty_slots(count)
                }
            },
            None => empty_slots(count),
        };
        let ghost known = slots_view(slots@);
        assert(known == if table.contains_key(protocol) && table[protocol].len() == count {
            table[protocol]
        } else {
            fresh_slots(count as nat)
        });
        slots.set(idx, Some(payload));
        assert(slots_view(slots@) =~= known.update(idx as int, Some(given)));
        if is_complete(&slots) {
            let whole = join(&slots);
            assert(self@ =~= table.remove(protocol));
            Some(whole)
        } else {
            self.partials.insert(protocol, slots);
            assert(self@ =~= table.insert(protocol, known.update(idx as int, Some(given))));
            None
        }
    }
}

/// The table after the first `k` packets of an arrival: of `packets`, the
/// one with the index `order[0]` comes first, then the one with `order[1]`,
/// and so on.
pub open spec fn after_packets(
    table: Map<u32, Slots>,
    packets: Seq<PacketView>,
    order: Seq<int>,
    k: nat,
) -> Map<u32, Slots>
    decreases k,
{
    if k == 0 {
        table
    } else {
        let p = packets[order[k - 1]];
        accept_spec(
            after_packets(table, packets, order, (k - 1) as nat),
            p.protocol,
            p.idx as nat,
            p.count as nat,
            p.payload,
        ).0
    }
}

/// What the packet that arrives after `k` others hands out.
pub open spec fn handed_out(
    table: Map<u32, Slots>,
    packets: Seq<PacketView>,
    order: Seq<int>,
    k: nat,
) -> Option<Seq<u8>> {
    let p = packets[order[k as int]];
    accept_spec(
        after_packets(table, packets, order, k),
        p.protocol,
        p.idx as nat,
        p.count as nat,
        p.payload,
    ).1
}

/// The index `x` is among the first `k` of `order`.
pub open spec fn arrived(order: Seq<int>, k: nat, x: int) -> bool {
    exists|i: int| 0 <= i < k && #[trigger] order[i] == x
}

/// `order` names each of the indices `0..count` once.
pub open spec fn each_index_once(order: Seq<int>, count: nat) -> bool {
    &&& order.len() == count
    &&& forall|i: int| 0 <= i < order.len() ==> 0 <= #[trigger] order[i] < count
    &&& forall|i: int, j: int| 0 <= i < j < order.len() ==> order[i] != order[j]
    &&& forall|x: int| 0 <= x < count ==> #[trigger] arrived(order, count, x)
}

/// `packets` are the chunks of one payload under `protocol`: each states
/// its own place as its index and their number as its count.
pub open spec fn chunks_of_one_payload(packets: Seq<PacketView>, protocol: u32) -> bool {
    &&& packets.len() >= 1
    &&& forall|i: int|
        0 <= i < packets.len() ==> {
            &&& (#[trigger] packets[i]).protocol == protocol
            &&& packets[i].idx == i
            &&& packets[i].count == packets.len()
        }
}

/// The slots after the first `k` packets of an arrival.
spec fn filled(packets: Seq<PacketView>, order: Seq<int>, k: nat) -> Slots {
    Seq::new(
        packets.len(),
        |x: int|
            if arrived(order, k, x) {
                Some(packets[x].payload)
            } else {
                None
            },
    )
}

/// Full slots, joined, are the payloads joined.
proof fn lemma_joined_slots_are_joined_payloads(packets: Seq<PacketView>)
    ensures
        joined(Seq::new(packets.len(), |x: int| Some(packets[x].payload))) == joined_payloads(
            packets,
        ),
    decreases packets.len(),
{
    let slots = Seq::new(packets.len(), |x: int| Some(packets[x].payload));
    if packets.len() > 0 {
        let front = packets.drop_last();
        lemma_joined_slots_are_joined_payloads(front);
        assert(slots.drop_last() =~= Seq::new(front.len(), |x: int| Some(front[x].payload)));
    }
}

/// The table before the last packet of an arrival holds, under the
/// protocol key, what has arrived; every packet before the last hands out
/// nothing.
proof fn lemma_before_the_last(
    table: Map<u32, Slots>,
    packets: Seq<PacketView>,
    protocol: u32,
    order: Seq<int>,
    k: nat,
)
    requires
        packets.len() >= 2,
        chunks_of_one_payload(packets, protocol),
        !table.contains_key(protocol),
        each_index_once(order, packets.len()),
        k < packets.len(),
    ensures
        after_packets(table, packets, order, k) == if k == 0 {
            table
        } else {
            table.insert(protocol, filled(packets, order, k))
        },
        k + 1 < packets.len() ==> handed_out(table, packets, order, k) is None,
        handed_out(table, packets, order, k) == if k + 1 < packets.len() {
            None
        } else {
            Some(joined_payloads(packets))
        },
        accept_spec(
            after_packets(table, packets, order, k),
            protocol,
            order[k as int] as nat,
            packets.len(),
            packets[order[k as int]].payload,
        ).0 == if k + 1 < packets.len() {
            table.insert(protocol, filled(packets, order, k + 1))
        } else {
            table
        },
    decreases k,
{
    let n = packets.len();
    if k > 0 {
        lemma_before_the_last(table, packets, protocol, order, (k - 1) as nat);
        let q = packets[order[k - 1]];
        assert(q.protocol == protocol && q.idx == order[k - 1] && q.count == n);
    }
    let before = after_packets(table, packets, order, k);
    let x = order[k as int];
    let p = packets[x];
    assert(p.protocol == protocol && p.idx == x && p.count == n);
    let known = if before.contains_key(protocol) && before[protocol].len() == n {
        before[protocol]
    } else {
        fresh_slots(n)
    };
    assert(known =~= filled(packets, order, k)) by {
        if k == 0 {
            assert forall|y: int| 0 <= y < n implies !arrived(order, 0, y) by {}
        }
    }
    let slots = known.update(x, Some(p.payload));
    assert(slots =~= filled(packets, order, k + 1)) by {
        assert forall|y: int| 0 <= y < n implies slots[y] == filled(packets, order, k + 1)[y] by {
            if y == x {
                assert(order[k as int] == y);
                assert(arrived(order, k + 1, y));
            } else if arrived(order, k, y) {
                let i = choose|i: int| 0 <= i < k && order[i] == y;
                assert(0 <= i < k + 1 && order[i] == y);
                assert(arrived(order, k + 1, y));
            } else {
                if arrived(order, k + 1, y) {
                    let i = choose|i: int| 0 <= i < k + 1 && order[i] == y;
                    assert(i < k);
                    assert(arrived(order, k, y));
                }
            }
        }
    }
    if k + 1 < n {
        let missing = order[k as int + 1];
        assert(!arrived(order, k + 1, missing));
        assert(slots[missing] is None);
        assert(!all_present(slots));
    } else {
        assert forall|y: int| 0 <= y < n implies (#[trigger] slots[y]) is Some by {
            assert(arrived(order, n, y));
            assert(arrived(order, k + 1, y));
        }
        assert(all_present(slots));
        assert(slots =~= Seq::new(n, |y: int| Some(packets[y].payload))) by {
            assert forall|y: int| 0 <= y < n implies slots[y] == Some(packets[y].payload) by {
                assert(slots[y] is Some);
            }
        }
        lemma_joined_slots_are_joined_payloads(packets);
        assert(before.remove(protocol) =~= table);
    }
    if k > 0 && k + 1 < n {
        assert(before.insert(protocol, slots) =~= table.insert(protocol, slots));
    }
}

/// The chunks of one payload, arriving in any order in which each index
/// comes once at a table that holds nothing under their protocol key: no
/// packet before the last hands anything out, the last hands out the
/// payloads joined in the order of the indices, and the table is then as it
/// was before the first.
pub proof fn lemma_chunks_in_any_order(
    table: Map<u32, Slots>,
    packets: Seq<PacketView>,
    protocol: u32,
    order: Seq<int>,
)
    requires
        chunks_of_one_payload(packets, protocol),
        !table.contains_key(protocol),
        each_index_once(order, packets.len()),
    ensures
        forall|k: nat| k + 1 < packets.len() ==> handed_out(table, packets, order, k) is None,
        handed_out(table, packets, order, (packets.len() - 1) as nat) == Some(
            joined_payloads(packets),
        ),
        after_packets(table, packets, order, packets.len()) == table,
{
    let n = packets.len();
    if n == 1 {
        assert(order[0] == 0);
        let p = packets[0];
        assert(p.idx == 0 && p.count == 1);
        assert(packets.drop_last() =~= Seq::<PacketView>::empty());
        assert(packets.last() == p);
        assert(joined_payloads(packets.drop_last()) =~= Seq::<u8>::empty());
        assert(joined_payloads(packets) =~= p.payload);
        assert(after_packets(table, packets, order, 0) == table);
    } else {
        assert forall|k: nat| k + 1 < n implies handed_out(table, packets, order, k) is None by {
            lemma_before_the_last(table, packets, protocol, order, k);
        }
        lemma_before_the_last(table, packets, protocol, order, (n - 1) as nat);
        let last = packets[order[n - 1]];
        assert(last.protocol == protocol && last.idx == order[n - 1] && last.count == n);
    }
}

/// The packets that a payload of up to `MAX_MESSAGE_SIZE` bytes is split
/// into are the chunks of one payload.
pub proof fn lemma_split_gives_chunks_of_one_payload(
    data: Seq<u8>,
    protocol: u32,
    protocol_type: CutePacketType,
)
    requires
        data.len() <= MAX_MESSAGE_SIZE,
    ensures
        chunks_of_one_payload(chunk_packets(data, protocol, protocol_type), protocol),
{
    lemma_chunk_count_bounds(data.len());
}

/// Splitting, then putting together: the packets that a payload of up to
/// `MAX_MESSAGE_SIZE` bytes is split into, arriving in any order in which
/// each comes once, hand out nothing before the last arrives and the payload
/// itself when it does.
pub proof fn lemma_split_chunks_reassemble(
    data: Seq<u8>,
    protocol: u32,
    protocol_type: CutePacketType,
    table: Map<u32, Slots>,
    order: Seq<int>,
)
    requires
        data.len() <= MAX_MESSAGE_SIZE,
        !table.contains_key(protocol),
        each_index_once(order, chunk_count(data.len())),
    ensures
        ({
            let packets = chunk_packets(data, protocol, protocol_type);
            &&& forall|k: nat|
                k + 1 < packets.len() ==> handed_out(table, packets, order, k) is None
            &&& handed_out(table, packets, order, (packets.len() - 1) as nat) == Some(data)
            &&& after_packets(table, packets, order, packets.len()) == table
        }),
{
    let packets = chunk_packets(data, protocol, protocol_type);
    lemma_split_then_join(data, protocol, protocol_type);
    lemma_split_gives_chunks_of_one_payload(data, protocol, protocol_type);
    lemma_chunks_in_any_order(table, packets, protocol, order);
}

} // verus!
