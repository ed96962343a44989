//! A handle on a System V semaphore set that guards a value.

use vstd::prelude::*;

verus! {

pub struct Semaphore<T> {
    users: usize,
    id: i32,
    data: T,
}

impl<T> Semaphore<T> {
    pub closed spec fn spec_users(&self) -> usize {
        self.users
    }

    pub closed spec fn spec_id(&self) -> i32 {
        self.id
    }

    pub closed spec fn spec_data(&self) -> T {
        self.data
    }

    /// A handle on the existing semaphore set `id`, shared by `users`
    /// processes, guarding `data`.
    pub fn from_id(id: i32, users: usize, data: T) -> (r: Semaphore<T>)
        ensures
            r.spec_id() == id,
            r.spec_users() == users,
            r.spec_data() == data,
    {
        Semaphore { users, id, data }
    }

    /// The identifier of the semaphore set.
    pub fn id(&self) -> (r: i32)
        ensures
            r == self.spec_id(),
    {
        self.id
    }

    /// The number of processes sharing the set.
    pub fn users(&self) -> (r: usize)
        ensures
            r == self.spec_users(),
    {
        self.users
    }
}

} // verus!
