//! The dynamic deny-list that the threat monitor writes and that every
//! incoming connection is checked against.
use vstd::prelude::*;
use vstd::string::*;

use crate::names::{add_name, contains_name, copy_names, remove_name};
use crate::text;

verus! {

/// The blocked usernames and client identifiers.
#[verifier::ext_equal]
pub struct BlockListView {
    pub usernames: Set<Seq<char>>,
    pub client_ids: Set<Seq<char>>,
}

impl BlockListView {
    /// The connection is refused: its username or its client identifier is
    /// blocked. The empty username stands for none and is never blocked.
    pub open spec fn blocks(self, username: Seq<char>, client_id: Seq<char>) -> bool {
        username.len() > 0 && self.usernames.contains(username) || self.client_ids.contains(
            client_id,
        )
    }
}

/// Clients on this list are rejected regardless of their credentials.
pub struct BlockList {
    usernames: Vec<String>,
    client_ids: Vec<String>,
}

impl View for BlockList {
    type V = BlockListView;

    closed spec fn view(&self) -> BlockListView {
        BlockListView {
            usernames: text::string_texts(self.usernames@).to_set(),
            client_ids: text::string_texts(self.client_ids@).to_set(),
        }
    }
}

impl BlockList {
    #[verifier::type_invariant]
    spec fn inv(self) -> bool {
        &&& text::string_texts(self.usernames@).no_duplicates()
        &&& text::string_texts(self.client_ids@).no_duplicates()
    }

    /// A list that blocks nobody.
    pub fn new() -> (b: BlockList)
        ensures
            b@.usernames == Set::<Seq<char>>::empty(),
            b@.client_ids == Set::<Seq<char>>::empty(),
            forall|user: Seq<char>, client: Seq<char>| !(#[trigger] b@.blocks(user, client)),
    {
        let b = BlockList { usernames: Vec::new(), client_ids: Vec::new() };
        assert(b@.usernames =~= Set::<Seq<char>>::empty());
        assert(b@.client_ids =~= Set::<Seq<char>>::empty());
        b
    }

    /// Returns true if either the username or the client_id is blocked.
    pub fn is_blocked(&self, username: &str, client_id: &str) -> (b: bool)
        ensures
            b == self@.blocks(username@, client_id@),
    {
        (!username.is_empty() && contains_name(&self.usernames, username)) || contains_name(
            &self.client_ids,
            client_id,
        )
    }

    /// Blocks a username.
    pub fn block_username(&mut self, username: &str)
        ensures
            final(self)@.usernames == old(self)@.usernames.insert(username@),
            final(self)@.client_ids == old(self)@.client_ids,
            forall|user: Seq<char>, client: Seq<char>| #[trigger]
                final(self)@.blocks(user, client) <==> old(self)@.blocks(user, client) || user
                    == username@ && user.len() > 0,
    {
        proof {
            use_type_invariant(&*self);
        }
        let mut names: Vec<String> = Vec::new();
        std::mem::swap(&mut names, &mut self.usernames);
        self.usernames = add_name(names, username);
    }

    /// Blocks a client identifier.
    pub fn block_client(&mut self, client_id: &str)
        ensures
            final(self)@.usernames == old(self)@.usernames,
            final(self)@.client_ids == old(self)@.client_ids.insert(client_id@),
            forall|user: Seq<char>, client: Seq<char>| #[trigger]
                final(self)@.blocks(user, client) <==> old(self)@.blocks(user, client) || client
                    == client_id@,
    {
        proof {
            use_type_invariant(&*self);
        }
        let mut names: Vec<String> = Vec::new();
        std::mem::swap(&mut names, &mut self.client_ids);
        self.client_ids = add_name(names, client_id);
    }

    /// Unblocks a username.
    pub fn unblock_username(&mut self, username: &str)
        ensures
            final(self)@.usernames == old(self)@.usernames.remove(username@),
            final(self)@.client_ids == old(self)@.client_ids,
            forall|user: Seq<char>, client: Seq<char>|
                user != username@ ==> #[trigger] final(self)@.blocks(user, client) == old(
                    self,
                )@.blocks(user, client),
    {
        proof {
            use_type_invariant(&*self);
        }
        let mut names: Vec<String> = Vec::new();
        std::mem::swap(&mut names, &mut self.usernames);
        self.usernames = remove_name(names, username);
    }

    /// Unblocks a client identifier.
    pub fn unblock_client(&mut self, client_id: &str)
        ensures
            final(self)@.usernames == old(self)@.usernames,
            final(self)@.client_ids == old(self)@.client_ids.remove(client_id@),
            forall|user: Seq<char>, client: Seq<char>|
                client != client_id@ ==> #[trigger] final(self)@.blocks(user, client) == old(
                    self,
                )@.blocks(user, client),
    {
        proof {
            use_type_invariant(&*self);
        }
        let mut names: Vec<String> = Vec::new();
        std::mem::swap(&mut names, &mut self.client_ids);
        self.client_ids = remove_name(names, client_id);
    }

    /// The blocked usernames, each once, in no particular order.
    pub fn blocked_usernames(&self) -> (names: Vec<String>)
        ensures
            text::string_texts(names@).no_duplicates(),
            text::string_texts(names@).to_set() == self@.usernames,
    {
        proof {
            use_type_invariant(self);
        }
        copy_names(&self.usernames)
    }

    /// The blocked client identifiers, each once, in no particular order.
    pub fn blocked_clients(&self) -> (names: Vec<String>)
        ensures
            text::string_texts(names@).no_duplicates(),
            text::string_texts(names@).to_set() == self@.client_ids,
    {
        proof {
            use_type_invariant(self);
        }
        copy_names(&self.client_ids)
    }
}

} // verus!
