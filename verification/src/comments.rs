//! Comments on diff lines, kept under the identities of the lines.

use crate::diff_parser;
use crate::diff_parser::{DiffLine, DiffLineView};
use crate::text;
use vstd::prelude::*;

verus! {

/// A comment on some lines.
#[derive(Debug, PartialEq, Eq)]
pub struct InlineComment {
    pub target_lines: Vec<DiffLine>,
    pub text: String,
    pub created_at: u64,
}

/// The model of an `InlineComment`.
#[verifier::ext_equal]
pub struct CommentView {
    pub target_lines: Seq<DiffLineView>,
    pub text: Seq<char>,
    pub created_at: u64,
}

impl View for InlineComment {
    type V = CommentView;

    open spec fn view(&self) -> CommentView {
        CommentView {
            target_lines: diff_parser::line_views(self.target_lines@),
            text: self.text@,
            created_at: self.created_at,
        }
    }
}

/// The models of a sequence of comments.
pub open spec fn comment_views(comments: Seq<InlineComment>) -> Seq<CommentView> {
    comments.map_values(|comment: InlineComment| comment@)
}

impl Clone for InlineComment {
    fn clone(&self) -> (copy: Self)
        ensures
            copy@ == self@,
    {
        InlineComment {
            target_lines: diff_parser::copy_lines(self.target_lines.as_slice()),
            text: self.text.clone(),
            created_at: self.created_at,
        }
    }
}

/// The comments under one identity.
struct CommentEntry {
    id: String,
    comments: Vec<InlineComment>,
}

/// Comments, kept under the identities of the lines that they stand below. Under each identity
/// the comments are in the order in which they were added.
pub struct CommentStore {
    entries: Vec<CommentEntry>,
}

/// The entry for `id` in some entries.
spec fn has_entry(entries: Seq<CommentEntry>, id: Seq<char>) -> bool {
    exists|i: int| 0 <= i < entries.len() && (#[trigger] entries[i]).id@ == id
}

/// The position of the entry for `id`.
spec fn entry_index(entries: Seq<CommentEntry>, id: Seq<char>) -> int {
    choose|i: int| 0 <= i < entries.len() && (#[trigger] entries[i]).id@ == id
}

/// What some entries hold under each identity.
spec fn entries_map(entries: Seq<CommentEntry>) -> Map<Seq<char>, Seq<CommentView>> {
    Map::new(
        |id: Seq<char>| has_entry(entries, id),
        |id: Seq<char>| comment_views(entries[entry_index(entries, id)].comments@),
    )
}

/// Each identity has one entry, and no entry is empty.
spec fn entries_wf(entries: Seq<CommentEntry>) -> bool {
    &&& forall|i: int, j: int|
        0 <= i < j < entries.len() ==> (#[trigger] entries[i]).id@ != (#[trigger] entries[j]).id@
    &&& forall|i: int| 0 <= i < entries.len() ==> (#[trigger] entries[i]).comments@.len() > 0
}

/// An entry is what the map holds under its identity.
proof fn lemma_entry(entries: Seq<CommentEntry>, i: int)
    requires
        entries_wf(entries),
        0 <= i < entries.len(),
    ensures
        has_entry(entries, entries[i].id@),
        entries_map(entries).contains_key(entries[i].id@),
        entries_map(entries)[entries[i].id@] == comment_views(entries[i].comments@),
{
    let id = entries[i].id@;
    let k = entry_index(entries, id);
    assert(0 <= k < entries.len() && entries[k].id@ == id);
    if k < i {
        assert(entries[k].id@ != entries[i].id@);
    } else if i < k {
        assert(entries[i].id@ != entries[k].id@);
    }
}

/// The comments without those created at `created_at`.
pub open spec fn without(comments: Seq<CommentView>, created_at: u64) -> Seq<CommentView> {
    comments.filter(|comment: CommentView| comment.created_at != created_at)
}

/// The store without the comments created at `created_at`: an identity that has no other comment
/// leaves the store.
pub open spec fn store_without(
    store: Map<Seq<char>, Seq<CommentView>>,
    created_at: u64,
) -> Map<Seq<char>, Seq<CommentView>> {
    Map::new(
        |id: Seq<char>| store.contains_key(id) && without(store[id], created_at).len() > 0,
        |id: Seq<char>| without(store[id], created_at),
    )
}

/// The comments under `id`; none where the store holds none.
pub open spec fn comments_under(store: Map<Seq<char>, Seq<CommentView>>, id: Seq<char>) -> Seq<
    CommentView,
> {
    if store.contains_key(id) {
        store[id]
    } else {
        seq![]
    }
}

impl View for CommentStore {
    type V = Map<Seq<char>, Seq<CommentView>>;

    closed spec fn view(&self) -> Map<Seq<char>, Seq<CommentView>> {
        entries_map(self.entries@)
    }
}

impl CommentStore {
    #[verifier::type_invariant]
    spec fn wf(self) -> bool {
        entries_wf(self.entries@)
    }

    /// A store without comments.
    pub fn new() -> (store: CommentStore)
        ensures
            store@ == Map::<Seq<char>, Seq<CommentView>>::empty(),
    {
        let entries: Vec<CommentEntry> = Vec::new();
        assert(entries_map(entries@) =~= Map::<Seq<char>, Seq<CommentView>>::empty());
        CommentStore { entries }
    }

    /// The position of the entry for `id`.
    fn find(entries: &Vec<CommentEntry>, id: &str) -> (index: Option<usize>)
        ensures
            match index {
                Some(i) => i < entries@.len() && entries@[i as int].id@ == id@,
                None => !has_entry(entries@, id@),
            },
    {
        let wanted = id.to_string();
        let mut i: usize = 0;
        while i < entries.len()
            invariant
                i <= entries@.len(),
                wanted@ == id@,
                forall|j: int| 0 <= j < i ==> (#[trigger] entries@[j]).id@ != id@,
            decreases entries@.len() - i,
        {
            if entries[i].id == wanted {
                return Some(i);
            }
            i += 1;
        }
        None
    }

    /// The comments under `id`, if there are any.
    pub fn get(&self, id: &str) -> (comments: Option<&Vec<InlineComment>>)
        ensures
            match comments {
                Some(comments) => self@.contains_key(id@) && self@[id@] == comment_views(comments@)
                    && comments@.len() > 0,
                None => !self@.contains_key(id@),
            },
    {
        proof {
            use_type_invariant(self);
        }
        match Self::find(&self.entries, id) {
            Some(i) => {
                proof {
                    lemma_entry(self.entries@, i as int);
                }
                Some(&self.entries[i].comments)
            },
            None => None,
        }
    }

    /// Adds a comment under `id`, after those that are there.
    pub fn push(&mut self, id: String, comment: InlineComment)
        ensures
            final(self)@ == old(self)@.insert(id@, comments_under(old(self)@, id@).push(comment@)),
    {
        proof {
            use_type_invariant(&*self);
        }
        let mut entries: Vec<CommentEntry> = Vec::new();
        std::mem::swap(&mut entries, &mut self.entries);
        let ghost before = entries@;
        let ghost map = old(self)@;
        match Self::find(&entries, id.as_str()) {
            Some(i) => {
                let ghost comments = entries@[i as int].comments@;
                proof {
                    lemma_entry(before, i as int);
                }
                entries[i].comments.push(comment);
                proof {
                    let after = entries@;
                    assert(comment_views(after[i as int].comments@) =~= comment_views(comments).push(
                        comment@,
                    ));
                    assert(forall|j: int|
                        0 <= j < after.len() ==> (#[trigger] after[j]).id@ == before[j].id@);
                    assert forall|j: int|
                        0 <= j < after.len() implies (#[trigger] after[j]).comments@.len() > 0 by {
                        if j != i {
                            assert(after[j] == before[j]);
                        }
                    }
                    assert forall|a: int, b: int| 0 <= a < b < after.len() implies (
                    #[trigger] after[a]).id@ != (#[trigger] after[b]).id@ by {
                        assert(before[a].id@ != before[b].id@);
                    }
                    assert forall|key: Seq<char>|
                        has_entry(after, key) == has_entry(before, key) by {
                        if has_entry(after, key) {
                            let k = entry_index(after, key);
                            assert(before[k].id@ == key);
                        }
                        if has_entry(before, key) {
                            let k = entry_index(before, key);
                            assert(after[k].id@ == key);
                        }
                    }
                    let wanted = map.insert(id@, comments_under(map, id@).push(comment@));
                    assert forall|key: Seq<char>| #[trigger]
                        entries_map(after).contains_key(key) implies entries_map(after)[key]
                        == wanted[key] by {
                        let k = entry_index(after, key);
                        assert(0 <= k < after.len() && after[k].id@ == key);
                        lemma_entry(after, k);
                        lemma_entry(before, k);
                        if k == i {
                        } else {
                            assert(after[k] == before[k]);
                            if key == id@ {
                                lemma_entry(after, i as int);
                            }
                        }
                    }
                    lemma_entry(after, i as int);
                    assert(entries_map(after) =~= wanted);
                }
            },
            None => {
                let comments = vec![comment];
                entries.push(CommentEntry { id, comments });
                proof {
                    let after = entries@;
                    assert forall|a: int, b: int| 0 <= a < b < after.len() implies (
                    #[trigger] after[a]).id@ != (#[trigger] after[b]).id@ by {
                        if b == before.len() {
                            if after[a].id@ == id@ {
                                assert(before[a].id@ == id@);
                                assert(has_entry(before, id@));
                            }
                        } else {
                            assert(before[a].id@ != before[b].id@);
                        }
                    }
                    assert forall|j: int|
                        0 <= j < after.len() implies (#[trigger] after[j]).comments@.len() > 0 by {
                        if j < before.len() {
                            assert(after[j] == before[j]);
                        }
                    }
                    assert(comment_views(comments@) =~= seq![comment@]);
                    let wanted = map.insert(id@, comments_under(map, id@).push(comment@));
                    assert(comments_under(map, id@).push(comment@) =~= seq![comment@]);
                    lemma_entry(after, before.len() as int);
                    assert forall|key: Seq<char>|
                        entries_map(after).contains_key(key) == wanted.contains_key(key) by {
                        if has_entry(after, key) && key != id@ {
                            let k = entry_index(after, key);
                            assert(0 <= k < after.len() && after[k].id@ == key);
                            assert(before[k].id@ == key);
                        }
                        if has_entry(before, key) {
                            let k = entry_index(before, key);
                            assert(after[k].id@ == key);
                        }
                    }
                    assert forall|key: Seq<char>| #[trigger]
                        entries_map(after).contains_key(key) implies entries_map(after)[key]
                        == wanted[key] by {
                        let k = entry_index(after, key);
                        assert(0 <= k < after.len() && after[k].id@ == key);
                        lemma_entry(after, k);
                        if k < before.len() {
                            assert(after[k] == before[k]);
                            lemma_entry(before, k);
                            if key == id@ {
                                assert(has_entry(before, id@));
                            }
                        }
                    }
                    assert(entries_map(after) =~= wanted);
                }
            },
        }
        self.entries = entries;
    }

    /// The comments that were not created at `created_at`.
    fn keep(comments: &[InlineComment], created_at: u64) -> (kept: Vec<InlineComment>)
        ensures
            comment_views(kept@) == without(comment_views(comments@), created_at),
    {
        let mut kept: Vec<InlineComment> = Vec::new();
        let ghost all = comment_views(comments@);
        let ghost pred = |comment: CommentView| comment.created_at != created_at;
        let mut i: usize = 0;
        assert(all.take(0).filter(pred) =~= comment_views(kept@)) by {
            reveal(Seq::filter);
        }
        while i < comments.len()
            invariant
                i <= comments@.len(),
                all == comment_views(comments@),
                pred == |comment: CommentView| comment.created_at != created_at,
                comment_views(kept@) == all.take(i as int).filter(pred),
            decreases comments@.len() - i,
        {
            let ghost before = kept@;
            assert(all.take(i + 1).drop_last() =~= all.take(i as int));
            assert(all.take(i + 1).last() == comments@[i as int]@);
            reveal(Seq::filter);
            if comments[i].created_at != created_at {
                kept.push(comments[i].clone());
                assert(comment_views(kept@) =~= comment_views(before).push(comments@[i as int]@));
            }
            i += 1;
        }
        assert(all.take(comments@.len() as int) =~= all);
        kept
    }

    /// Removes the comments that were created at `created_at`.
    pub fn remove(&mut self, created_at: u64)
        ensures
            final(self)@ == store_without(old(self)@, created_at),
    {
        proof {
            use_type_invariant(&*self);
        }
        let ghost before = self.entries@;
        let mut kept: Vec<CommentEntry> = Vec::new();
        let ghost mut from: Seq<int> = seq![];
        let mut i: usize = 0;
        while i < self.entries.len()
            invariant
                i <= self.entries@.len(),
                before == self.entries@,
                *self == *old(self),
                entries_wf(before),
                from.len() == kept@.len(),
                forall|k: int| 0 <= k < from.len() ==> 0 <= #[trigger] from[k] < i,
                forall|a: int, b: int|
                    0 <= a < b < from.len() ==> #[trigger] from[a] < #[trigger] from[b],
                forall|k: int|
                    0 <= k < from.len() ==> (#[trigger] kept@[k]).id@ == before[from[k]].id@
                        && comment_views(kept@[k].comments@) == without(
                        comment_views(before[from[k]].comments@),
                        created_at,
                    ) && kept@[k].comments@.len() > 0,
                forall|j: int|
                    0 <= j < i && without(
                        comment_views((#[trigger] before[j]).comments@),
                        created_at,
                    ).len() > 0 ==> from.contains(j),
            decreases self.entries@.len() - i,
        {
            let comments = Self::keep(self.entries[i].comments.as_slice(), created_at);
            let ghost from_before = from;
            assert(comments@.len() == comment_views(comments@).len());
            if comments.len() > 0 {
                kept.push(CommentEntry { id: self.entries[i].id.clone(), comments });
                proof {
                    from = from.push(i as int);
                    assert(from[from_before.len() as int] == i);
                    assert forall|j: int|
                        0 <= j < i + 1 && without(
                            comment_views((#[trigger] before[j]).comments@),
                            created_at,
                        ).len() > 0 implies from.contains(j) by {
                        if j < i {
                            let k = from_before.index_of(j);
                            assert(from[k] == j);
                        }
                    }
                }
            }
            i += 1;
        }
        proof {
            let after = kept@;
            assert forall|a: int, b: int| 0 <= a < b < after.len() implies (
            #[trigger] after[a]).id@ != (#[trigger] after[b]).id@ by {
                assert(from[a] < from[b]);
                assert(before[from[a]].id@ != before[from[b]].id@);
            }
            let wanted = store_without(entries_map(before), created_at);
            assert forall|key: Seq<char>| #[trigger] wanted.contains_key(key) implies entries_map(
                after,
            ).contains_key(key) by {
                let j = entry_index(before, key);
                assert(0 <= j < before.len() && before[j].id@ == key);
                lemma_entry(before, j);
                assert(from.contains(j));
                let k = from.index_of(j);
                assert(after[k].id@ == key);
            }
            assert forall|key: Seq<char>| #[trigger]
                entries_map(after).contains_key(key) implies wanted.contains_key(key)
                && entries_map(after)[key] == wanted[key] by {
                let k = entry_index(after, key);
                assert(0 <= k < after.len() && after[k].id@ == key);
                lemma_entry(after, k);
                lemma_entry(before, from[k]);
            }
            assert(entries_map(after) =~= wanted);
        }
        self.entries = kept;
    }
}

} // verus!
