//! The ordered collection of posted messages that every connection shares.
//!
//! `Store` itself is a plain value; whoever shares it between connections
//! guards it with one lock, so its operations are applied one at a time.

use vstd::prelude::*;

use vstd::seq_lib::{to_multiset_contains, to_multiset_len};

use crate::message::strings_view;

verus! {

/// Posted messages, oldest first.
pub struct Store {
    messages: Vec<String>,
}

impl View for Store {
    type V = Seq<Seq<char>>;

    closed spec fn view(&self) -> Seq<Seq<char>> {
        strings_view(self.messages@)
    }
}

/// The messages after posting each of `posts`, in order, to `s`.
pub open spec fn after_posts(s: Seq<Seq<char>>, posts: Seq<Seq<char>>) -> Seq<Seq<char>>
    decreases posts.len(),
{
    if posts.len() == 0 {
        s
    } else {
        after_posts(s, posts.drop_last()).push(posts.last())
    }
}

impl Store {
    /// An empty store.
    pub fn new() -> (r: Store)
        ensures
            r@ == Seq::<Seq<char>>::empty(),
    {
        let r = Store { messages: Vec::new() };
        assert(r@ =~= Seq::<Seq<char>>::empty());
        r
    }

    /// Adds `content` as the new last message.
    pub fn append(&mut self, content: String)
        ensures
            final(self)@ == old(self)@.push(content@),
    {
        let ghost text = content@;
        self.messages.push(content);
        assert(self@ =~= old(self)@.push(text));
    }

    /// Removes every message.
    pub fn clear(&mut self)
        ensures
            final(self)@ == Seq::<Seq<char>>::empty(),
    {
        self.messages.clear();
        assert(self@ =~= Seq::<Seq<char>>::empty());
    }

    /// A copy of the messages, in order.
    pub fn snapshot(&self) -> (r: Vec<String>)
        ensures
            strings_view(r@) == self@,
            r@.len() == self@.len(),
    {
        let mut out: Vec<String> = Vec::new();
        let mut i: usize = 0;
        while i < self.messages.len()
            invariant
                i <= self.messages@.len(),
                strings_view(out@) == strings_view(self.messages@.subrange(0, i as int)),
            decreases self.messages@.len() - i,
        {
            let ghost before = out@;
            let c = self.messages[i].clone();
            out.push(c);
            assert(strings_view(out@) =~= strings_view(before).push(self.messages@[i as int]@));
            assert(strings_view(self.messages@.subrange(0, i + 1)) =~= strings_view(
                self.messages@.subrange(0, i as int),
            ).push(self.messages@[i as int]@));
            i = i + 1;
        }
        assert(self.messages@.subrange(0, i as int) =~= self.messages@);
        out
    }

    /// The number of messages.
    pub fn length(&self) -> (r: usize)
        ensures
            r == self@.len(),
    {
        self.messages.len()
    }
}

/// Posts applied one after another, with no clear between them, are kept
/// after what was there, exactly in the order they were applied.
pub proof fn lemma_posts_keep_order(s: Seq<Seq<char>>, posts: Seq<Seq<char>>)
    ensures
        after_posts(s, posts) == s + posts,
    decreases posts.len(),
{
    if posts.len() > 0 {
        lemma_posts_keep_order(s, posts.drop_last());
        assert(s + posts =~= (s + posts.drop_last()).push(posts.last()));
    } else {
        assert(s + posts =~= s);
    }
}

/// Posts of distinct contents, serialised by the store's lock in whatever
/// order the callers won it, leave an empty store holding each content
/// exactly once: none lost, none repeated.
pub proof fn lemma_concurrent_posts_kept(posts: Seq<Seq<char>>, order: Seq<Seq<char>>)
    requires
        posts.no_duplicates(),
        order.to_multiset() == posts.to_multiset(),
    ensures
        after_posts(Seq::empty(), order).len() == posts.len(),
        after_posts(Seq::empty(), order).to_multiset() == posts.to_multiset(),
        after_posts(Seq::empty(), order).no_duplicates(),
        forall|i: int| 0 <= i < posts.len() ==> after_posts(Seq::empty(), order).contains(#[trigger] posts[i]),
{
    lemma_posts_keep_order(Seq::empty(), order);
    let r = after_posts(Seq::empty(), order);
    assert(r =~= order);
    posts.lemma_multiset_has_no_duplicates();
    r.lemma_multiset_has_no_duplicates_conv();
    to_multiset_len(r);
    to_multiset_len(posts);
    assert forall|i: int| 0 <= i < posts.len() implies r.contains(#[trigger] posts[i]) by {
        assert(posts.contains(posts[i]));
        to_multiset_contains(posts, posts[i]);
        to_multiset_contains(r, posts[i]);
    }
}

} // verus!
