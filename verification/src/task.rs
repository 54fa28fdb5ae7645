//! Background tasks and the threads that work on them.

use vstd::prelude::*;

verus! {

/// The identity of a background task.
#[derive(Debug, PartialEq, Eq, Hash)]
pub struct TaskId {
    pub id: String,
}

impl View for TaskId {
    type V = Seq<char>;

    open spec fn view(&self) -> Seq<char> {
        self.id@
    }
}

impl DeepView for TaskId {
    type V = Seq<char>;

    open spec fn deep_view(&self) -> Seq<char> {
        self@
    }
}

impl Clone for TaskId {
    fn clone(&self) -> (res: Self)
        ensures
            res@ == self@,
    {
        TaskId { id: self.id.clone() }
    }
}

/// One invocation that works on a background task.
#[derive(Debug, PartialEq, Eq)]
pub struct ScopeMember {
    pub thread_id: String,
    pub invocation_id: String,
}

/// The content of a [`ScopeMember`].
#[verifier::ext_equal]
pub struct ScopeMemberView {
    pub thread_id: Seq<char>,
    pub invocation_id: Seq<char>,
}

impl View for ScopeMember {
    type V = ScopeMemberView;

    open spec fn view(&self) -> ScopeMemberView {
        ScopeMemberView {
            thread_id: self.thread_id@,
            invocation_id: self.invocation_id@,
        }
    }
}

impl DeepView for ScopeMember {
    type V = ScopeMemberView;

    open spec fn deep_view(&self) -> ScopeMemberView {
        self@
    }
}

impl Clone for ScopeMember {
    fn clone(&self) -> (res: Self)
        ensures
            res@ == self@,
    {
        ScopeMember {
            thread_id: self.thread_id.clone(),
            invocation_id: self.invocation_id.clone(),
        }
    }
}

}
