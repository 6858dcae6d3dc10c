//! Exchange of border cells between neighbouring tiles.
//!
//! Before a step every tile sends each neighbour its interior row or column
//! next to that neighbour, tagged with the side it left by, and fills its own
//! ghost cells from what its neighbours sent. Messages may arrive in any
//! order: the tag alone says which ghost cells a message fills.

use crate::buffer::plane_col;
use crate::buffer::plane_with_col;
use crate::buffer::ArrBuffer;
use crate::buffer::TileView;
use crate::frame::tile_placed;
use crate::geometry::lemma_neighbors_mutual;
use crate::geometry::neighbors_of;
use vstd::prelude::*;

verus! {

/// Tag of a message that left its sender by the top side.
pub const TAG_TOP: u8 = 1;

/// Tag of a message that left its sender by the bottom side.
pub const TAG_BOTTOM: u8 = 2;

/// Tag of a message that left its sender by the left side.
pub const TAG_LEFT: u8 = 3;

/// Tag of a message that left its sender by the right side.
pub const TAG_RIGHT: u8 = 4;

/// Capacity of the mailbox of a tile.
pub const MAILBOX_CAPACITY: usize = 4;

/// A row or column of cells and the side of the sender it left by.
#[derive(Debug)]
pub struct HaloMessage<T> {
    pub tag: u8,
    pub data: Vec<T>,
}

/// A message and the tile it goes to.
#[derive(Debug)]
pub struct Outgoing<T> {
    pub dest: usize,
    pub message: HaloMessage<T>,
}

/// What became of a message that was delivered.
#[derive(Clone, Copy, Debug, PartialEq, Eq, Structural)]
pub enum HaloOutcome {
    /// The ghost cells that the tag names were filled.
    Filled,
    /// The tag names no side: the message was dropped.
    UnknownTag,
    /// The message is not as long as the ghost row or column that the tag
    /// names: the message was dropped.
    BadLength,
}

/// The cells that a tile sends with `tag`: its first or last interior row,
/// or its first or last interior column, ghost cells at both ends included.
pub open spec fn halo_payload<T>(v: TileView<T>, tag: u8) -> Seq<T> {
    if tag == TAG_TOP {
        v.cur[1]
    } else if tag == TAG_BOTTOM {
        v.cur[v.m as int]
    } else if tag == TAG_LEFT {
        plane_col(v.cur, 1)
    } else {
        plane_col(v.cur, v.n as int)
    }
}

/// Whether `tag` names a side.
pub open spec fn known_tag(tag: u8) -> bool {
    tag == TAG_TOP || tag == TAG_BOTTOM || tag == TAG_LEFT || tag == TAG_RIGHT
}

/// How many cells a message with `tag` must hold to fit tile `v`.
pub open spec fn halo_len<T>(v: TileView<T>, tag: u8) -> nat {
    if tag == TAG_TOP || tag == TAG_BOTTOM {
        v.grid_n()
    } else {
        v.grid_m()
    }
}

/// What becomes of a message with `tag` and `len` cells at tile `v`.
pub open spec fn halo_outcome<T>(v: TileView<T>, tag: u8, len: nat) -> HaloOutcome {
    if !known_tag(tag) {
        HaloOutcome::UnknownTag
    } else if len != halo_len(v, tag) {
        HaloOutcome::BadLength
    } else {
        HaloOutcome::Filled
    }
}

/// Tile `v` after a message with `tag` and `data` was delivered. What left
/// the sender by its top fills the bottom ghost row of the receiver, and so
/// on for each side; a message that is dropped changes nothing.
pub open spec fn with_halo<T>(v: TileView<T>, tag: u8, data: Seq<T>) -> TileView<T> {
    if halo_outcome(v, tag, data.len()) != HaloOutcome::Filled {
        v
    } else if tag == TAG_TOP {
        TileView { cur: v.cur.update(v.m + 1int, data), ..v }
    } else if tag == TAG_BOTTOM {
        TileView { cur: v.cur.update(0, data), ..v }
    } else if tag == TAG_LEFT {
        TileView { cur: plane_with_col(v.cur, v.n + 1int, data), ..v }
    } else {
        TileView { cur: plane_with_col(v.cur, 0, data), ..v }
    }
}

/// The messages that a tile sends in one exchange, as destination, tag and
/// cells: one for each neighbour that exists, in the order top, bottom, left,
/// right.
pub open spec fn outgoing_of<T>(v: TileView<T>, top: int, bottom: int, left: int, right: int) -> Seq<
    (int, u8, Seq<T>),
> {
    let to_top = if top >= 0 {
        seq![(top, TAG_TOP, halo_payload(v, TAG_TOP))]
    } else {
        seq![]
    };
    let to_bottom = if bottom >= 0 {
        seq![(bottom, TAG_BOTTOM, halo_payload(v, TAG_BOTTOM))]
    } else {
        seq![]
    };
    let to_left = if left >= 0 {
        seq![(left, TAG_LEFT, halo_payload(v, TAG_LEFT))]
    } else {
        seq![]
    };
    let to_right = if right >= 0 {
        seq![(right, TAG_RIGHT, halo_payload(v, TAG_RIGHT))]
    } else {
        seq![]
    };
    to_top + to_bottom + to_left + to_right
}

/// Destination, tag and cells of each message of `out`.
pub open spec fn outgoing_view<T>(out: Seq<Outgoing<T>>) -> Seq<(int, u8, Seq<T>)> {
    Seq::new(out.len(), |i: int| (out[i].dest as int, out[i].message.tag, out[i].message.data@))
}

/// How many of the four neighbours exist.
pub open spec fn neighbor_count(top: int, bottom: int, left: int, right: int) -> nat {
    (if top >= 0 {
        1nat
    } else {
        0nat
    }) + (if bottom >= 0 {
        1nat
    } else {
        0nat
    }) + (if left >= 0 {
        1nat
    } else {
        0nat
    }) + (if right >= 0 {
        1nat
    } else {
        0nat
    })
}

/// The messages that tile `buf` sends in one exchange, given the numbers of
/// its neighbours, -1 standing for none.
pub fn outgoing_halos<T: Copy>(
    buf: &ArrBuffer<T>,
    top_t_id: i32,
    bot_t_id: i32,
    left_t_id: i32,
    right_t_id: i32,
) -> (out: Vec<Outgoing<T>>)
    ensures
        outgoing_view(out@) == outgoing_of(
            buf@,
            top_t_id as int,
            bot_t_id as int,
            left_t_id as int,
            right_t_id as int,
        ),
{
    let grid_m = buf.grid_m();
    let grid_n = buf.grid_n();
    let mut out: Vec<Outgoing<T>> = Vec::new();
    if top_t_id >= 0 {
        out.push(
            Outgoing {
                dest: top_t_id as usize,
                message: HaloMessage { tag: TAG_TOP, data: buf.extract_row(1) },
            },
        );
    }
    if bot_t_id >= 0 {
        out.push(
            Outgoing {
                dest: bot_t_id as usize,
                message: HaloMessage { tag: TAG_BOTTOM, data: buf.extract_row(grid_m - 2) },
            },
        );
    }
    if left_t_id >= 0 {
        out.push(
            Outgoing {
                dest: left_t_id as usize,
                message: HaloMessage { tag: TAG_LEFT, data: buf.extract_col(1) },
            },
        );
    }
    if right_t_id >= 0 {
        out.push(
            Outgoing {
                dest: right_t_id as usize,
                message: HaloMessage { tag: TAG_RIGHT, data: buf.extract_col(grid_n - 2) },
            },
        );
    }
    assert(outgoing_view(out@) =~= outgoing_of(
        buf@,
        top_t_id as int,
        bot_t_id as int,
        left_t_id as int,
        right_t_id as int,
    ));
    out
}

/// Delivers one message to tile `buf`: fills the ghost row or column that the
/// tag names, or drops the message and says why.
pub fn receive_halo<T: Copy>(buf: &mut ArrBuffer<T>, message: &HaloMessage<T>) -> (outcome:
    HaloOutcome)
    ensures
        outcome == halo_outcome(old(buf)@, message.tag, message.data@.len()),
        final(buf)@ == with_halo(old(buf)@, message.tag, message.data@),
        final(buf)@.wf(),
        final(buf).prev_off() == old(buf).prev_off(),
        final(buf).cur_off() == old(buf).cur_off(),
        final(buf).next_off() == old(buf).next_off(),
{
    let grid_m = buf.grid_m();
    let grid_n = buf.grid_n();
    let tag = message.tag;
    if tag == TAG_TOP || tag == TAG_BOTTOM {
        if message.data.len() != grid_n {
            return HaloOutcome::BadLength;
        }
        if tag == TAG_TOP {
            buf.update_row(grid_m - 1, message.data.as_slice());
        } else {
            buf.update_row(0, message.data.as_slice());
        }
        HaloOutcome::Filled
    } else if tag == TAG_LEFT || tag == TAG_RIGHT {
        if message.data.len() != grid_m {
            return HaloOutcome::BadLength;
        }
        if tag == TAG_LEFT {
            buf.update_col(grid_n - 1, message.data.as_slice());
        } else {
            buf.update_col(0, message.data.as_slice());
        }
        HaloOutcome::Filled
    } else {
        HaloOutcome::UnknownTag
    }
}

/// How far the receiving half of one exchange has come: how many messages
/// the tile waits for, and how many have been delivered.
pub struct HaloInbox {
    expected: usize,
    received: usize,
}

impl HaloInbox {
    #[verifier::type_invariant]
    spec fn inv(self) -> bool {
        self.received <= self.expected <= 4
    }

    /// Messages that the tile waits for in this exchange.
    pub closed spec fn expected_count(self) -> nat {
        self.expected as nat
    }

    /// Messages that have been delivered in this exchange.
    pub closed spec fn received_count(self) -> nat {
        self.received as nat
    }

    /// Starts the receiving half of an exchange for a tile with the given
    /// neighbours, -1 standing for none: one message is due from each
    /// neighbour that exists.
    pub fn new(top_t_id: i32, bot_t_id: i32, left_t_id: i32, right_t_id: i32) -> (inbox: Self)
        ensures
            inbox.expected_count() == neighbor_count(
                top_t_id as int,
                bot_t_id as int,
                left_t_id as int,
                right_t_id as int,
            ),
            inbox.received_count() == 0,
    {
        let mut expected: usize = 0;
        if top_t_id >= 0 {
            expected = expected + 1;
        }
        if bot_t_id >= 0 {
            expected = expected + 1;
        }
        if left_t_id >= 0 {
            expected = expected + 1;
        }
        if right_t_id >= 0 {
            expected = expected + 1;
        }
        HaloInbox { expected, received: 0 }
    }

    /// Messages that the tile waits for in this exchange.
    pub fn expected(&self) -> (count: usize)
        ensures
            count == self.expected_count(),
            count <= 4,
    {
        proof {
            use_type_invariant(self);
        }
        self.expected
    }

    /// Messages that have been delivered in this exchange.
    pub fn received(&self) -> (count: usize)
        ensures
            count == self.received_count(),
            count <= self.expected_count(),
    {
        proof {
            use_type_invariant(self);
        }
        self.received
    }

    /// Whether a message is still due.
    pub fn pending(&self) -> (due: bool)
        ensures
            due == (self.received_count() < self.expected_count()),
    {
        self.received < self.expected
    }

    /// Delivers one message while one is due. The message counts as
    /// delivered whatever becomes of it: one that is dropped is not
    /// waited for again.
    pub fn deliver<T: Copy>(&mut self, buf: &mut ArrBuffer<T>, message: &HaloMessage<T>) -> (outcome:
        HaloOutcome)
        requires
            old(self).received_count() < old(self).expected_count(),
        ensures
            final(self).expected_count() == old(self).expected_count(),
            final(self).received_count() == old(self).received_count() + 1,
            outcome == halo_outcome(old(buf)@, message.tag, message.data@.len()),
            final(buf)@ == with_halo(old(buf)@, message.tag, message.data@),
            final(buf)@.wf(),
            final(buf).prev_off() == old(buf).prev_off(),
            final(buf).cur_off() == old(buf).cur_off(),
            final(buf).next_off() == old(buf).next_off(),
    {
        proof {
            use_type_invariant(&*self);
        }
        let outcome = receive_halo(buf, message);
        self.received = self.received + 1;
        outcome
    }
}

/// The ghost cells of tile `v` that a message with `tag` fills: a ghost row
/// or a ghost column, corners included.
pub open spec fn ghost_line<T>(v: TileView<T>, tag: u8) -> Seq<T> {
    if tag == TAG_TOP {
        v.cur[v.m + 1int]
    } else if tag == TAG_BOTTOM {
        v.cur[0]
    } else if tag == TAG_LEFT {
        plane_col(v.cur, v.n + 1int)
    } else {
        plane_col(v.cur, 0)
    }
}

/// Whether one of two tags names a row and the other a column.
pub open spec fn tags_cross(a: u8, b: u8) -> bool {
    known_tag(a) && known_tag(b) && ((a == TAG_TOP || a == TAG_BOTTOM) != (b == TAG_TOP || b
        == TAG_BOTTOM))
}

/// Tile `v` after the messages of `inbox`, each a tag and its cells, were
/// delivered one after another.
pub open spec fn after_messages<T>(v: TileView<T>, inbox: Seq<(u8, Seq<T>)>) -> TileView<T>
    decreases inbox.len(),
{
    if inbox.len() == 0 {
        v
    } else {
        with_halo(after_messages(v, inbox.drop_last()), inbox.last().0, inbox.last().1)
    }
}

/// Delivering a message keeps the shape of a tile, and changes nothing but
/// the `cur` plane.
pub proof fn lemma_with_halo_wf<T>(v: TileView<T>, tag: u8, data: Seq<T>)
    requires
        v.wf(),
    ensures
        with_halo(v, tag, data).wf(),
        with_halo(v, tag, data) == (TileView { cur: with_halo(v, tag, data).cur, ..v }),
{
}

/// Delivering messages keeps the shape of a tile, and changes nothing but
/// the `cur` plane.
pub proof fn lemma_after_messages_wf<T>(v: TileView<T>, inbox: Seq<(u8, Seq<T>)>)
    requires
        v.wf(),
    ensures
        after_messages(v, inbox).wf(),
        after_messages(v, inbox) == (TileView { cur: after_messages(v, inbox).cur, ..v }),
    decreases inbox.len(),
{
    if inbox.len() > 0 {
        lemma_after_messages_wf(v, inbox.drop_last());
        lemma_with_halo_wf(after_messages(v, inbox.drop_last()), inbox.last().0, inbox.last().1);
    }
}

/// A message that is delivered fills the ghost cells that its tag names
/// with its cells.
pub proof fn lemma_with_halo_fills<T>(v: TileView<T>, tag: u8, data: Seq<T>)
    requires
        v.wf(),
        halo_outcome(v, tag, data.len()) == HaloOutcome::Filled,
    ensures
        ghost_line(with_halo(v, tag, data), tag) == data,
{
    assert(ghost_line(with_halo(v, tag, data), tag) =~= data);
}

/// A message with another tag leaves the ghost cells that `tag` names as
/// they are, but for the two corners where a ghost row and a ghost column
/// cross.
pub proof fn lemma_with_halo_keeps<T>(v: TileView<T>, tag: u8, other: u8, data: Seq<T>)
    requires
        v.wf(),
        known_tag(tag),
        other != tag,
    ensures
        forall|i: int|
            1 <= i < halo_len(v, tag) - 1 ==> #[trigger] ghost_line(with_halo(v, other, data), tag)[i]
                == ghost_line(v, tag)[i],
        !tags_cross(tag, other) ==> ghost_line(with_halo(v, other, data), tag) == ghost_line(
            v,
            tag,
        ),
{
    if !tags_cross(tag, other) {
        assert(ghost_line(with_halo(v, other, data), tag) =~= ghost_line(v, tag));
    }
}

/// After an exchange, the ghost cells on each side of a tile hold what the
/// neighbour on that side sent: the ghost row above the interior equals the
/// last interior row of the tile above, and likewise on the other three
/// sides.
///
/// `inbox` is what the receiver was delivered, in the order of arrival,
/// and message `k` of it is what `sender` sent with `tag`. The two tiles
/// agree in the length of that line, as neighbours do. No later message
/// has the same tag. Then the ghost cells that `tag` names equal the cells
/// sent, between the corners in any case, and in the corners too unless a
/// message for a crossing line came later: a ghost row and a ghost column
/// share their corner, which holds what came last.
pub proof fn lemma_halo_reciprocity<T>(
    receiver: TileView<T>,
    sender: TileView<T>,
    tag: u8,
    inbox: Seq<(u8, Seq<T>)>,
    k: int,
)
    requires
        receiver.wf(),
        sender.wf(),
        known_tag(tag),
        halo_len(sender, tag) == halo_len(receiver, tag),
        0 <= k < inbox.len(),
        inbox[k] == (tag, halo_payload(sender, tag)),
        forall|j: int| k < j < inbox.len() ==> (#[trigger] inbox[j]).0 != tag,
    ensures
        forall|i: int|
            1 <= i < halo_len(receiver, tag) - 1 ==> #[trigger] ghost_line(
                after_messages(receiver, inbox),
                tag,
            )[i] == halo_payload(sender, tag)[i],
        (forall|j: int| k < j < inbox.len() ==> !tags_cross(tag, (#[trigger] inbox[j]).0))
            ==> ghost_line(after_messages(receiver, inbox), tag) == halo_payload(sender, tag),
    decreases inbox.len(),
{
    let rest = inbox.drop_last();
    let mid = after_messages(receiver, rest);
    lemma_after_messages_wf(receiver, rest);
    if k == inbox.len() - 1 {
        assert(halo_payload(sender, tag).len() == halo_len(sender, tag));
        lemma_with_halo_fills(mid, tag, halo_payload(sender, tag));
    } else {
        assert(rest[k] == inbox[k]);
        assert forall|j: int| k < j < rest.len() implies (#[trigger] rest[j]).0 != tag by {
            assert(rest[j] == inbox[j]);
        }
        lemma_halo_reciprocity(receiver, sender, tag, rest, k);
        lemma_with_halo_keeps(mid, tag, inbox.last().0, inbox.last().1);
        assert(inbox.last() == inbox[inbox.len() - 1]);
        if forall|j: int| k < j < inbox.len() ==> !tags_cross(tag, (#[trigger] inbox[j]).0) {
            assert forall|j: int| k < j < rest.len() implies !tags_cross(
                tag,
                (#[trigger] rest[j]).0,
            ) by {
                assert(rest[j] == inbox[j]);
            }
        }
    }
}

/// An exchange writes ghost cells only: every interior cell keeps its value,
/// whatever is delivered.
pub proof fn lemma_messages_keep_interior<T>(v: TileView<T>, inbox: Seq<(u8, Seq<T>)>)
    requires
        v.wf(),
    ensures
        forall|r: int, c: int|
            v.in_interior(r, c) ==> #[trigger] after_messages(v, inbox).cur[r][c] == v.cur[r][c],
    decreases inbox.len(),
{
    if inbox.len() > 0 {
        lemma_messages_keep_interior(v, inbox.drop_last());
        lemma_after_messages_wf(v, inbox.drop_last());
    }
}

/// Neighbours fit: a tile and its neighbour above or below have as many
/// columns, a tile and its neighbour to the left or right as many rows, so
/// that what one sends is as long as the ghost line of the other.
pub proof fn lemma_neighbors_fit<T>(
    a: TileView<T>,
    b: TileView<T>,
    m: nat,
    n: nat,
    px: nat,
    py: nat,
    t: nat,
    u: nat,
)
    requires
        px > 0,
        py > 0,
        t < px * py,
        tile_placed(a, m, n, px, py, t),
        tile_placed(b, m, n, px, py, u),
    ensures
        u == neighbors_of(t as int, px as int, py as int).0 || u == neighbors_of(
            t as int,
            px as int,
            py as int,
        ).1 ==> a.n == b.n && halo_len(a, TAG_TOP) == halo_len(b, TAG_BOTTOM),
        u == neighbors_of(t as int, px as int, py as int).2 || u == neighbors_of(
            t as int,
            px as int,
            py as int,
        ).3 ==> a.m == b.m && halo_len(a, TAG_LEFT) == halo_len(b, TAG_RIGHT),
{
    lemma_neighbors_mutual(t as int, px as int, py as int);
}

/// Tag and cells of each message of `list`.
pub open spec fn messages_view<T>(list: Seq<HaloMessage<T>>) -> Seq<(u8, Seq<T>)> {
    Seq::new(list.len(), |i: int| (list[i].tag, list[i].data@))
}

/// One exchange of tile `buf`, given what its mailbox holds.
///
/// The messages for the neighbours are made first, from the tile as it is
/// before anything is delivered, and are returned for sending. Then the
/// messages of `mailbox` are delivered in their order, as many as the tile
/// has neighbours or as there are, whichever is less. The inbox that is
/// returned says how many were due and how many were delivered; where a
/// message is still due, the exchange is not complete.
pub fn exchange_ghost_cells<T: Copy>(
    buf: &mut ArrBuffer<T>,
    mailbox: &Vec<HaloMessage<T>>,
    top_t_id: i32,
    bot_t_id: i32,
    left_t_id: i32,
    right_t_id: i32,
) -> (res: (Vec<Outgoing<T>>, HaloInbox))
    ensures
        outgoing_view(res.0@) == outgoing_of(
            old(buf)@,
            top_t_id as int,
            bot_t_id as int,
            left_t_id as int,
            right_t_id as int,
        ),
        res.1.expected_count() == neighbor_count(
            top_t_id as int,
            bot_t_id as int,
            left_t_id as int,
            right_t_id as int,
        ),
        res.1.received_count() == if mailbox@.len() < res.1.expected_count() {
            mailbox@.len()
        } else {
            res.1.expected_count()
        },
        final(buf)@ == after_messages(
            old(buf)@,
            messages_view(mailbox@).take(res.1.received_count() as int),
        ),
        final(buf)@.wf(),
        final(buf).prev_off() == old(buf).prev_off(),
        final(buf).cur_off() == old(buf).cur_off(),
        final(buf).next_off() == old(buf).next_off(),
{
    let outgoing = outgoing_halos(buf, top_t_id, bot_t_id, left_t_id, right_t_id);
    let mut inbox = HaloInbox::new(top_t_id, bot_t_id, left_t_id, right_t_id);
    proof {
        use_type_invariant(&*buf);
        buf.lemma_valid_view();
    }
    let count = mailbox.len();
    let mut i: usize = 0;
    while i < count && inbox.pending()
        invariant
            i <= count == mailbox@.len(),
            inbox.expected_count() == neighbor_count(
                top_t_id as int,
                bot_t_id as int,
                left_t_id as int,
                right_t_id as int,
            ),
            inbox.received_count() == i,
            i <= inbox.expected_count(),
            buf@ == after_messages(old(buf)@, messages_view(mailbox@).take(i as int)),
            buf@.wf(),
            buf.prev_off() == old(buf).prev_off(),
            buf.cur_off() == old(buf).cur_off(),
            buf.next_off() == old(buf).next_off(),
        decreases count - i,
    {
        proof {
            let now = messages_view(mailbox@).take(i + 1);
            assert(now.drop_last() == messages_view(mailbox@).take(i as int));
            assert(now.last() == (mailbox@[i as int].tag, mailbox@[i as int].data@));
        }
        let _ = inbox.deliver(buf, &mailbox[i]);
        i = i + 1;
    }
    (outgoing, inbox)
}

} // verus!
