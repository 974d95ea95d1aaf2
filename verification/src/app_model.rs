//! The example application of the framework: a user list whose entries can
//! be opened, and a user card whose button counts clicks.
use vstd::prelude::*;

verus! {

/// The messages of a user card.
pub enum UserMsg {
    Click,
}

/// A user.
pub struct User {
    pub id: i32,
    pub name: String,
    pub age: u8,
}

impl User {
    /// A click on the card's button adds one to the age.
    pub fn update(&mut self, msg: UserMsg)
        requires
            old(self).age < u8::MAX,
        ensures
            final(self).age == old(self).age + 1,
            final(self).id == old(self).id,
            final(self).name == old(self).name,
    {
        match msg {
            UserMsg::Click => {
                self.age = self.age + 1;
            },
        }
    }
}

/// The messages of the user list.
pub enum Msg {
    /// Open the user with this id.
    UserDetail(i32),
}

/// The user list: which user, if any, is open.
pub struct Main {
    show_user: Option<i32>,
}

impl View for Main {
    type V = Option<i32>;

    closed spec fn view(&self) -> Option<i32> {
        self.show_user
    }
}

impl Main {
    /// A list with no user open.
    pub fn new() -> (m: Self)
        ensures
            m@ == None::<i32>,
    {
        Self { show_user: None }
    }

    /// Opens the user the message names.
    pub fn update(&mut self, msg: Msg)
        ensures
            match msg {
                Msg::UserDetail(user_id) => final(self)@ == Some(user_id),
            },
    {
        match msg {
            Msg::UserDetail(user_id) => self.show_user = Some(user_id),
        }
    }

    /// The open user.
    pub fn show_user(&self) -> (res: Option<i32>)
        ensures
            res == self@,
    {
        self.show_user
    }
}

/// The counter of the framework's `component!` examples: a button that
/// shows its value.
pub struct Counter {
    pub value: i32,
}

} // verus!
