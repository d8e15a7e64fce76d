//! The bounded message store of a room on the client: `CircularQueue` of the
//! `circular-queue` crate, which overwrites its oldest item once it is full.

use vstd::prelude::*;
use crate::state::MessageBoxItem;

verus! {

/// Largest capacity a queue may be made with.
pub const MAX_QUEUE_CAPACITY: usize = 0xFFFF;

/// `circular_queue::CircularQueue`. What a queue holds and the capacity it
/// was made with go by the two names below.
#[verifier::external_type_specification]
#[verifier::external_body]
#[verifier::reject_recursive_types(T)]
pub struct ExCircularQueue<T>(circular_queue::CircularQueue<T>);

/// The items a queue holds, oldest first.
pub uninterp spec fn queue_items(queue: circular_queue::CircularQueue<MessageBoxItem>) -> Seq<
    MessageBoxItem,
>;

/// The capacity a queue was made with.
pub uninterp spec fn queue_capacity(queue: circular_queue::CircularQueue<MessageBoxItem>) -> nat;

/// What a queue of `capacity` holds after `item` was pushed onto `items`: a
/// queue without capacity stays empty, a full one loses its oldest item.
pub open spec fn items_pushed(items: Seq<MessageBoxItem>, capacity: nat, item: MessageBoxItem) -> Seq<
    MessageBoxItem,
> {
    if capacity == 0 {
        items
    } else if items.len() == capacity {
        items.drop_first().push(item)
    } else {
        items.push(item)
    }
}

/// `CircularQueue::with_capacity`: an empty queue of the capacity asked for.
/// The call allocates room for `capacity` items at once and panics where that
/// exceeds what a `Vec` may hold, hence the bound.
#[verifier::external_body]
pub(crate) fn queue_with_capacity(capacity: usize) -> (queue: circular_queue::CircularQueue<
    MessageBoxItem,
>)
    requires
        capacity <= MAX_QUEUE_CAPACITY,
    ensures
        queue_items(queue) == Seq::<MessageBoxItem>::empty(),
        queue_capacity(queue) == capacity,
{
    circular_queue::CircularQueue::with_capacity(capacity)
}

/// `CircularQueue::push`: the item becomes the newest one; the capacity stays.
/// The item that a full queue gives up is dropped.
#[verifier::external_body]
pub(crate) fn queue_push(
    queue: &mut circular_queue::CircularQueue<MessageBoxItem>,
    item: MessageBoxItem,
)
    ensures
        queue_capacity(*final(queue)) == queue_capacity(*old(queue)),
        queue_items(*final(queue)) == items_pushed(
            queue_items(*old(queue)),
            queue_capacity(*old(queue)),
            item,
        ),
{
    queue.push(item);
}

/// `CircularQueue::asc_iter`, collected: clones of the items, oldest first.
#[verifier::external_body]
pub(crate) fn queue_snapshot(queue: &circular_queue::CircularQueue<MessageBoxItem>) -> (items: Vec<
    MessageBoxItem,
>)
    ensures
        items@ == queue_items(*queue),
{
    queue.asc_iter().cloned().collect()
}

/// `Clone::clone` of `CircularQueue`: the same items in the same order, and
/// the same capacity.
#[verifier::external_body]
pub(crate) fn queue_clone(queue: &circular_queue::CircularQueue<MessageBoxItem>) -> (copy:
    circular_queue::CircularQueue<MessageBoxItem>)
    ensures
        queue_items(copy) == queue_items(*queue),
        queue_capacity(copy) == queue_capacity(*queue),
{
    queue.clone()
}

} // verus!
