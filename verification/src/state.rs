//! Data model of the coordinator: the two selection enums, a saved binding
//! record, and the state container holding the binding store and the single
//! negotiation slot.

use vstd::prelude::*;
use vstd::string::StringExecFns;

verus! {

/// Language chosen once per negotiation; immutable afterward.
#[derive(Clone, Copy, PartialEq, Eq, Structural, Debug)]
pub enum Language {
    Italian,
    English,
}

impl Language {
    /// The flag emoji shown for this language, as a mathematical value.
    pub open spec fn spec_flag(self) -> Seq<char> {
        match self {
            Language::Italian => "🇮🇹"@,
            Language::English => "🇬🇧"@,
        }
    }

    /// The flag emoji shown for this language.
    pub fn to_flag(&self) -> (r: &'static str)
        ensures
            r@ == self.spec_flag(),
    {
        match self {
            Language::Italian => "🇮🇹",
            Language::English => "🇬🇧",
        }
    }
}

/// Issue category chosen once per negotiation; used only to label the thread.
#[derive(Clone, Copy, PartialEq, Eq, Structural, Debug)]
pub enum TicketType {
    Bug,
    HowTo,
    Other,
}

impl TicketType {
    /// The human-readable label of this category, as a mathematical value.
    pub open spec fn spec_label(self) -> Seq<char> {
        match self {
            TicketType::Bug => "Bug"@,
            TicketType::HowTo => "How to ..."@,
            TicketType::Other => "Other"@,
        }
    }

    /// The human-readable label of this category.
    pub fn to_string(&self) -> (r: String)
        ensures
            r@ == self.spec_label(),
    {
        match self {
            TicketType::Bug => String::from_str("Bug"),
            TicketType::HowTo => String::from_str("How to ..."),
            TicketType::Other => String::from_str("Other"),
        }
    }
}

/// One committed binding: a private conversation and the thread created for
/// it, the thread addressed by the identifier of its creating message.
/// This is also the record shape of the persisted snapshot.
#[derive(Clone, Copy, PartialEq, Eq, Structural, Debug)]
pub struct SavedBinding {
    pub chat_id: i64,
    pub topic_msg_id: i32,
}

/// Abbreviation for a binding value in specifications.
pub open spec fn sb(c: i64, t: i32) -> SavedBinding {
    SavedBinding { chat_id: c, topic_msg_id: t }
}

/// The negotiation in progress: the requesting conversation, the chosen
/// language, and the category once the second selection has been made.
#[derive(Clone, Copy, PartialEq, Eq, Debug)]
pub struct PendingTicket {
    pub chat_id: i64,
    pub language: Language,
    pub ticket_type: Option<TicketType>,
}

/// Container for the coordinator state: the binding store and the single
/// negotiation slot. The slot being an `Option` makes "at most one
/// negotiation in flight" a fact of the type itself.
///
/// Reverse lookup is a linear scan of the store; the expected number of open
/// bindings is small, so no secondary index is kept.
///
/// The slot has, deliberately, no expiry: a negotiation that is never
/// completed keeps it occupied until a later language selection overwrites it
/// or the process restarts. Callers that want a timeout must clear
/// `pending_chat` themselves.
pub struct StateContainer {
    /// Open bindings; well-formed states keep both columns duplicate-free.
    pub bindings: Vec<SavedBinding>,
    /// The one negotiation currently in progress, if any.
    pub pending_chat: Option<PendingTicket>,
}

impl StateContainer {
    /// No conversation is bound twice.
    pub open spec fn conv_keys_unique(self) -> bool {
        forall|i: int, j: int|
            0 <= i < j < self.bindings@.len() ==> self.bindings@[i].chat_id
                != self.bindings@[j].chat_id
    }

    /// No thread is bound twice.
    pub open spec fn thread_values_unique(self) -> bool {
        forall|i: int, j: int|
            0 <= i < j < self.bindings@.len() ==> self.bindings@[i].topic_msg_id
                != self.bindings@[j].topic_msg_id
    }

    /// Well-formedness of the store: every conversation holds at most one
    /// binding, and no two conversations share a thread.
    pub open spec fn wf(self) -> bool {
        self.conv_keys_unique() && self.thread_values_unique()
    }

    pub open spec fn has_binding(self, b: SavedBinding) -> bool {
        self.bindings@.contains(b)
    }

    /// Conversation `c` holds a binding.
    pub open spec fn conv_bound(self, c: i64) -> bool {
        exists|i: int| 0 <= i < self.bindings@.len() && self.bindings@[i].chat_id == c
    }

    /// Thread `t` belongs to some binding.
    pub open spec fn thread_bound(self, t: i32) -> bool {
        exists|i: int| 0 <= i < self.bindings@.len() && self.bindings@[i].topic_msg_id == t
    }

    pub open spec fn bound_to(self, c: i64, t: i32) -> bool {
        self.bindings@.contains(sb(c, t))
    }

    /// Two containers agree on everything an event handler can observe or
    /// change.
    pub open spec fn same_state(self, other: Self) -> bool {
        self.bindings@ == other.bindings@ && self.pending_chat == other.pending_chat
    }

    /// For every conversation, at most one binding is keyed by it: two
    /// bindings of the same conversation carry the same thread.
    pub proof fn lemma_conv_unique(self, c: i64, t1: i32, t2: i32)
        requires
            self.wf(),
            self.bound_to(c, t1),
            self.bound_to(c, t2),
        ensures
            t1 == t2,
    {
        let s = self.bindings@;
        let i1 = choose|i: int| 0 <= i < s.len() && s[i] == sb(c, t1);
        let i2 = choose|i: int| 0 <= i < s.len() && s[i] == sb(c, t2);
        if i1 != i2 {
            if i1 < i2 {
                assert(s[i1].chat_id != s[i2].chat_id);
            } else {
                assert(s[i2].chat_id != s[i1].chat_id);
            }
        }
    }

    /// For every thread, at most one binding carries it: two bindings of the
    /// same thread are keyed by the same conversation.
    pub proof fn lemma_thread_unique(self, t: i32, c1: i64, c2: i64)
        requires
            self.wf(),
            self.bound_to(c1, t),
            self.bound_to(c2, t),
        ensures
            c1 == c2,
    {
        let s = self.bindings@;
        let i1 = choose|i: int| 0 <= i < s.len() && s[i] == sb(c1, t);
        let i2 = choose|i: int| 0 <= i < s.len() && s[i] == sb(c2, t);
        if i1 != i2 {
            if i1 < i2 {
                assert(s[i1].topic_msg_id != s[i2].topic_msg_id);
            } else {
                assert(s[i2].topic_msg_id != s[i1].topic_msg_id);
            }
        }
    }

    /// A fresh container: no bindings, no negotiation in progress.
    pub fn new() -> (r: Self)
        ensures
            r.wf(),
            r.bindings@ =~= Seq::<SavedBinding>::empty(),
            r.pending_chat is None,
    {
        StateContainer { bindings: Vec::new(), pending_chat: None }
    }

    /// Forward lookup: the thread bound to conversation `c`, if any.
    pub fn get_thread(&self, c: i64) -> (r: Option<i32>)
        requires
            self.wf(),
        ensures
            match r {
                Some(t) => self.bound_to(c, t),
                None => !self.conv_bound(c),
            },
    {
        let n = self.bindings.len();
        let mut i: usize = 0;
        while i < n
            invariant
                n == self.bindings@.len(),
                i <= n,
                forall|k: int| 0 <= k < i ==> self.bindings@[k].chat_id != c,
            decreases n - i,
        {
            if self.bindings[i].chat_id == c {
                return Some(self.bindings[i].topic_msg_id);
            }
            i += 1;
        }
        None
    }

    /// Reverse lookup: the conversation whose thread is `t`, if any.
    pub fn get_conversation(&self, t: i32) -> (r: Option<i64>)
        requires
            self.wf(),
        ensures
            match r {
                Some(c) => self.bound_to(c, t),
                None => !self.thread_bound(t),
            },
    {
        let n = self.bindings.len();
        let mut i: usize = 0;
        while i < n
            invariant
                n == self.bindings@.len(),
                i <= n,
                forall|k: int| 0 <= k < i ==> self.bindings@[k].topic_msg_id != t,
            decreases n - i,
        {
            if self.bindings[i].topic_msg_id == t {
                return Some(self.bindings[i].chat_id);
            }
            i += 1;
        }
        None
    }

    /// Delete the binding held by conversation `c`. Deleting an absent
    /// binding leaves the store untouched: close is idempotent.
    pub fn remove_by_conversation(&mut self, c: i64)
        requires
            old(self).wf(),
        ensures
            final(self).wf(),
            final(self).pending_chat == old(self).pending_chat,
            forall|b: SavedBinding|
                final(self).has_binding(b) <==> (old(self).has_binding(b) && b.chat_id != c),
            !old(self).conv_bound(c) ==> final(self).bindings@ == old(self).bindings@,
    {
        let n = self.bindings.len();
        let mut i: usize = 0;
        while i < n
            invariant
                n == self.bindings@.len(),
                i <= n,
                forall|k: int| 0 <= k < i ==> self.bindings@[k].chat_id != c,
                *self == *old(self),
                old(self).wf(),
            decreases n - i,
        {
            if self.bindings[i].chat_id == c {
                self.bindings.remove(i);
                proof {
                    old(self).lemma_remove_index(*self, i as int);
                }
                return ;
            }
            i += 1;
        }
        proof {
            assert(forall|b: SavedBinding|
                self.has_binding(b) ==> b.chat_id != c) by {
                assert forall|b: SavedBinding|
                    self.has_binding(b) implies b.chat_id != c by {
                    let k = choose|k: int|
                        0 <= k < self.bindings@.len() && self.bindings@[k] == b;
                };
            }
        }
    }

    /// Delete the binding whose thread is `t`. A no-op when no such binding
    /// exists.
    pub fn remove_by_thread(&mut self, t: i32)
        requires
            old(self).wf(),
        ensures
            final(self).wf(),
            final(self).pending_chat == old(self).pending_chat,
            forall|b: SavedBinding|
                final(self).has_binding(b) <==> (old(self).has_binding(b) && b.topic_msg_id != t),
            !old(self).thread_bound(t) ==> final(self).bindings@ == old(self).bindings@,
    {
        let n = self.bindings.len();
        let mut i: usize = 0;
        while i < n
            invariant
                n == self.bindings@.len(),
                i <= n,
                forall|k: int| 0 <= k < i ==> self.bindings@[k].topic_msg_id != t,
                *self == *old(self),
                old(self).wf(),
            decreases n - i,
        {
            if self.bindings[i].topic_msg_id == t {
                self.bindings.remove(i);
                proof {
                    old(self).lemma_remove_index(*self, i as int);
                }
                return ;
            }
            i += 1;
        }
        proof {
            assert forall|b: SavedBinding|
                self.has_binding(b) implies b.topic_msg_id != t by {
                let k = choose|k: int| 0 <= k < self.bindings@.len() && self.bindings@[k] == b;
            };
        }
    }

    /// What removing one index does to the store, as seen by membership.
    proof fn lemma_remove_index(self, new: Self, i: int)
        requires
            self.wf(),
            0 <= i < self.bindings@.len(),
            new.bindings@ == self.bindings@.remove(i),
        ensures
            new.wf(),
            forall|b: SavedBinding|
                new.has_binding(b) <==> (self.has_binding(b) && b != self.bindings@[i]),
            forall|b: SavedBinding|
                new.has_binding(b) ==> b.chat_id != self.bindings@[i].chat_id,
            forall|b: SavedBinding|
                new.has_binding(b) ==> b.topic_msg_id != self.bindings@[i].topic_msg_id,
            forall|b: SavedBinding|
                (self.has_binding(b) && b.chat_id != self.bindings@[i].chat_id) ==> new.has_binding(
                    b,
                ),
            forall|b: SavedBinding|
                (self.has_binding(b) && b.topic_msg_id != self.bindings@[i].topic_msg_id)
                    ==> new.has_binding(b),
    {
        let s = self.bindings@;
        let r = new.bindings@;
        assert(r.len() == s.len() - 1);
        assert(forall|j: int| 0 <= j < i ==> r[j] == s[j]);
        assert(forall|j: int| i <= j < r.len() ==> r[j] == s[j + 1]);
        assert forall|b: SavedBinding| r.contains(b) implies (s.contains(b) && b.chat_id
            != s[i].chat_id && b.topic_msg_id != s[i].topic_msg_id) by {
            let k = choose|k: int| 0 <= k < r.len() && r[k] == b;
            if k < i {
                assert(s[k] == b);
                assert(s[k].chat_id != s[i].chat_id);
                assert(s[k].topic_msg_id != s[i].topic_msg_id);
            } else {
                assert(s[k + 1] == b);
                assert(s[i].chat_id != s[k + 1].chat_id);
                assert(s[i].topic_msg_id != s[k + 1].topic_msg_id);
            }
        };
        assert forall|b: SavedBinding| s.contains(b) && b != s[i] implies r.contains(b) by {
            let k = choose|k: int| 0 <= k < s.len() && s[k] == b;
            if k < i {
                assert(r[k] == b);
            } else {
                assert(k > i);
                assert(r[k - 1] == b);
            }
        };
        assert forall|p: int, q: int| 0 <= p < q < r.len() implies r[p].chat_id != r[q].chat_id
            && r[p].topic_msg_id != r[q].topic_msg_id by {
            let p0: int = if p < i { p } else { p + 1 };
            let q0: int = if q < i { q } else { q + 1 };
            assert(r[p] == s[p0]);
            assert(r[q] == s[q0]);
            assert(s[p0].chat_id != s[q0].chat_id);
            assert(s[p0].topic_msg_id != s[q0].topic_msg_id);
        };
    }

    /// Insert the binding `(c, t)`, silently replacing any binding that
    /// conversation `c` already holds. The thread must be new to the store:
    /// a thread never serves two conversations.
    pub fn put(&mut self, c: i64, t: i32)
        requires
            old(self).wf(),
            !old(self).thread_bound(t),
        ensures
            final(self).wf(),
            final(self).pending_chat == old(self).pending_chat,
            forall|b: SavedBinding|
                final(self).has_binding(b) <==> ((old(self).has_binding(b) && b.chat_id != c) || b
                    == sb(c, t)),
            final(self).bound_to(c, t),
    {
        self.remove_by_conversation(c);
        let ghost mid = *self;
        self.bindings.push(SavedBinding { chat_id: c, topic_msg_id: t });
        proof {
            let s = mid.bindings@;
            let r = self.bindings@;
            assert(r == s.push(sb(c, t)));
            assert(r[s.len() as int] == sb(c, t));
            assert forall|b: SavedBinding| r.contains(b) implies (s.contains(b) || b == sb(
                c,
                t,
            )) by {
                let k = choose|k: int| 0 <= k < r.len() && r[k] == b;
                if k < s.len() {
                    assert(s[k] == b);
                }
            };
            assert forall|b: SavedBinding| s.contains(b) implies r.contains(b) by {
                let k = choose|k: int| 0 <= k < s.len() && s[k] == b;
                assert(r[k] == b);
            };
            assert(r.contains(sb(c, t)));
            assert forall|p: int, q: int| 0 <= p < q < r.len() implies r[p].chat_id != r[q].chat_id
                && r[p].topic_msg_id != r[q].topic_msg_id by {
                if q < s.len() {
                    assert(r[p] == s[p] && r[q] == s[q]);
                    assert(s[p].chat_id != s[q].chat_id);
                    assert(s[p].topic_msg_id != s[q].topic_msg_id);
                } else {
                    assert(r[q] == sb(c, t));
                    assert(r[p] == s[p]);
                    assert(s.contains(s[p]));
                    assert(mid.has_binding(s[p]));
                    assert(old(self).has_binding(s[p]) && s[p].chat_id != c);
                    if s[p].topic_msg_id == t {
                        let k = choose|k: int|
                            0 <= k < old(self).bindings@.len() && old(self).bindings@[k] == s[p];
                        assert(old(self).bindings@[k].topic_msg_id == t);
                        assert(old(self).thread_bound(t));
                        assert(false);
                    }
                }
            };
        }
    }

    /// A consistent copy of every open binding, in store order.
    pub fn snapshot(&self) -> (r: Vec<SavedBinding>)
        ensures
            r@ == self.bindings@,
    {
        let n = self.bindings.len();
        let mut r: Vec<SavedBinding> = Vec::new();
        let mut i: usize = 0;
        while i < n
            invariant
                n == self.bindings@.len(),
                i <= n,
                r@ =~= self.bindings@.subrange(0, i as int),
            decreases n - i,
        {
            r.push(self.bindings[i]);
            i += 1;
        }
        proof {
            assert(r@ =~= self.bindings@);
        }
        r
    }

    /// Seed a container from a loaded snapshot, dropping any record that
    /// repeats an already-seen conversation or thread, so the result is
    /// well-formed whatever the file held. A snapshot that was itself
    /// well-formed is taken over unchanged.
    pub fn from_snapshot(records: &Vec<SavedBinding>) -> (r: Self)
        ensures
            r.wf(),
            r.pending_chat is None,
            forall|b: SavedBinding| r.has_binding(b) ==> records@.contains(b),
            (StateContainer { bindings: *records, pending_chat: None }).wf() ==> r.bindings@
                == records@,
    {
        let n = records.len();
        let mut out = StateContainer { bindings: Vec::new(), pending_chat: None };
        let mut i: usize = 0;
        let ghost all = StateContainer { bindings: *records, pending_chat: None };
        while i < n
            invariant
                n == records@.len(),
                i <= n,
                out.wf(),
                out.pending_chat is None,
                forall|b: SavedBinding| out.has_binding(b) ==> records@.subrange(0, i as int).contains(b),
                all.bindings == *records,
                all.wf() ==> out.bindings@ =~= records@.subrange(0, i as int),
            decreases n - i,
        {
            let rec = records[i];
            let dup_conv = out.get_thread(rec.chat_id);
            let dup_thread = out.get_conversation(rec.topic_msg_id);
            let ghost prev = out;
            if dup_conv.is_none() && dup_thread.is_none() {
                out.bindings.push(rec);
                proof {
                    let s = prev.bindings@;
                    let r2 = out.bindings@;
                    assert forall|p: int, q: int|
                        0 <= p < q < r2.len() implies r2[p].chat_id != r2[q].chat_id
                        && r2[p].topic_msg_id != r2[q].topic_msg_id by {
                        if q < s.len() {
                            assert(r2[p] == s[p] && r2[q] == s[q]);
                        } else {
                            assert(r2[q] == rec && r2[p] == s[p]);
                            assert(s.contains(s[p]));
                            if s[p].chat_id == rec.chat_id {
                                assert(prev.conv_bound(rec.chat_id));
                            }
                            if s[p].topic_msg_id == rec.topic_msg_id {
                                assert(prev.thread_bound(rec.topic_msg_id));
                            }
                        }
                    };
                    assert forall|b: SavedBinding|
                        out.has_binding(b) implies records@.subrange(0, i + 1).contains(b) by {
                        let k = choose|k: int| 0 <= k < r2.len() && r2[k] == b;
                        if k < s.len() {
                            assert(s[k] == b);
                            assert(prev.has_binding(b));
                            let m = choose|m: int|
                                0 <= m < i && records@.subrange(0, i as int)[m] == b;
                            assert(records@.subrange(0, i + 1)[m] == b);
                        } else {
                            assert(b == rec);
                            assert(records@.subrange(0, i + 1)[i as int] == b);
                        }
                    };
                }
            } else {
                proof {
                    if all.wf() {
                        // a duplicate cannot arise from a well-formed snapshot
                        assert(out.bindings@ =~= records@.subrange(0, i as int));
                        if dup_conv is Some {
                            let t0 = dup_conv->0;
                            assert(out.bound_to(rec.chat_id, t0));
                            let k = choose|k: int|
                                0 <= k < out.bindings@.len() && out.bindings@[k] == sb(
                                    rec.chat_id,
                                    t0,
                                );
                            assert(records@[k] == sb(rec.chat_id, t0));
                            assert(records@[i as int] == rec);
                            assert(all.bindings@ == records@);
                            assert(k < i);
                            assert(all.bindings@[k].chat_id != all.bindings@[i as int].chat_id);
                            assert(false);
                        } else {
                            let c0 = dup_thread->0;
                            assert(out.bound_to(c0, rec.topic_msg_id));
                            let k = choose|k: int|
                                0 <= k < out.bindings@.len() && out.bindings@[k] == sb(
                                    c0,
                                    rec.topic_msg_id,
                                );
                            assert(records@[k] == sb(c0, rec.topic_msg_id));
                            assert(records@[i as int] == rec);
                            assert(all.bindings@ == records@);
                            assert(k < i);
                            assert(all.bindings@[k].topic_msg_id != all.bindings@[
                                i as int
                            ].topic_msg_id);
                            assert(false);
                        }
                    }
                    assert forall|b: SavedBinding|
                        out.has_binding(b) implies records@.subrange(0, i + 1).contains(b) by {
                        let m = choose|m: int|
                            0 <= m < i && records@.subrange(0, i as int)[m] == b;
                        assert(records@.subrange(0, i + 1)[m] == b);
                    };
                }
            }
            i += 1;
        }
        proof {
            assert(records@.subrange(0, n as int) =~= records@);
            assert forall|b: SavedBinding| out.has_binding(b) implies records@.contains(b) by {
                let m = choose|m: int| 0 <= m < n && records@.subrange(0, n as int)[m] == b;
                assert(records@[m] == b);
            };
        }
        out
    }
}

} // verus!
