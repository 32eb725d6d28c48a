use vstd::prelude::*;

verus! {

/// A singly linked stack: `item` is the top, `next` holds the rest.
pub struct Stack<T> {
    pub item: T,
    pub next: Option<Box<Stack<T>>>,
}

/// The items of an optional stack, from the top down.
pub open spec fn stack_items<T>(s: Option<Box<Stack<T>>>) -> Seq<T>
    decreases s,
{
    match s {
        None => Seq::empty(),
        Some(node) => seq![node.item] + stack_items(node.next),
    }
}

impl<T> Stack<T> {
    /// Puts `item` on top of `top` and returns the new stack.
    pub fn push(top: Option<Box<Stack<T>>>, item: T) -> (r: Option<Box<Stack<T>>>)
        ensures
            r == Some(Box::new(Stack { item, next: top })),
            stack_items(r) == seq![item] + stack_items(top),
    {
        Some(Box::new(Stack { item, next: top }))
    }
}

/// The stack after pushing `items` onto `s`, first item first.
pub open spec fn push_all<T>(s: Option<Box<Stack<T>>>, items: Seq<T>) -> Option<Box<Stack<T>>>
    decreases items.len(),
{
    if items.len() == 0 {
        s
    } else {
        Some(Box::new(Stack { item: items.last(), next: push_all(s, items.drop_last()) }))
    }
}

/// Pushing items one after another onto a stack leaves them on top of it,
/// newest first: a stack emptied by a poll holds exactly the items pushed
/// since, in reverse order.
pub proof fn lemma_push_all_items<T>(s: Option<Box<Stack<T>>>, items: Seq<T>)
    ensures
        stack_items(push_all(s, items)) == items.reverse() + stack_items(s),
    decreases items.len(),
{
    if items.len() == 0 {
        assert(items.reverse() =~= Seq::<T>::empty());
        assert(items.reverse() + stack_items(s) =~= stack_items(s));
    } else {
        lemma_push_all_items(s, items.drop_last());
        assert(items.reverse() =~= seq![items.last()] + items.drop_last().reverse());
        assert(seq![items.last()] + (items.drop_last().reverse() + stack_items(s))
            =~= items.reverse() + stack_items(s));
    }
}

} // verus!
