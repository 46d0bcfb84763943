//! Attribution of each logged entry to the one remote task that its tags name.

use vstd::prelude::*;
use crate::config::TaskTable;
use crate::entry::Entry;
use crate::entry::lemma_filter_push;
use crate::entry::ResolvedEntry;

verus! {

/// Why an entry could not be attributed to a task.
#[derive(Debug)]
pub enum ResolutionError {
    /// None of the entry's tags names a task.
    NoTask,
    /// More than one tag names a task; these are the first two that do.
    Ambiguous { tag_a: String, tag_b: String },
}

/// A resolution error with its tags as texts.
pub enum ResolutionErrorView {
    NoTask,
    Ambiguous { tag_a: Seq<char>, tag_b: Seq<char> },
}

impl View for ResolutionError {
    type V = ResolutionErrorView;

    open spec fn view(&self) -> ResolutionErrorView {
        match self {
            ResolutionError::NoTask => ResolutionErrorView::NoTask,
            ResolutionError::Ambiguous { tag_a, tag_b } => ResolutionErrorView::Ambiguous {
                tag_a: tag_a@,
                tag_b: tag_b@,
            },
        }
    }
}

/// An entry that could not be attributed, and why.
#[derive(Debug)]
pub struct ResolveFailure {
    pub entry: Entry,
    pub error: ResolutionError,
}

/// The texts of `tags`, in order.
pub open spec fn tag_texts(tags: Seq<String>) -> Seq<Seq<char>> {
    tags.map_values(|t: String| t@)
}

/// The test for a tag that names a task of `table`.
pub open spec fn names_task(table: Map<Seq<char>, u64>) -> spec_fn(Seq<char>) -> bool {
    |tag: Seq<char>| table.dom().contains(tag)
}

/// The tags among `tags` that name a task of `table`, in order.
pub open spec fn task_tags(tags: Seq<String>, table: Map<Seq<char>, u64>) -> Seq<Seq<char>> {
    tag_texts(tags).filter(names_task(table))
}

/// The task that `tags` name in `table`: the task of the one tag that names
/// one, and an error where no tag or more than one tag does.
pub open spec fn resolution(tags: Seq<String>, table: Map<Seq<char>, u64>) -> Result<
    u64,
    ResolutionErrorView,
> {
    let named = task_tags(tags, table);
    if named.len() == 0 {
        Err(ResolutionErrorView::NoTask)
    } else if named.len() == 1 {
        Ok(table[named[0]])
    } else {
        Err(ResolutionErrorView::Ambiguous { tag_a: named[0], tag_b: named[1] })
    }
}

/// Whether `result` is what `expected` says, errors taken by their view.
pub open spec fn is_resolution(
    result: Result<u64, ResolutionError>,
    expected: Result<u64, ResolutionErrorView>,
) -> bool {
    match result {
        Ok(id) => expected == Ok::<u64, ResolutionErrorView>(id),
        Err(error) => expected == Err::<u64, ResolutionErrorView>(error@),
    }
}

/// Finds the one task that the tags of `entry` name in `table`.
pub fn resolve(entry: &Entry, table: &TaskTable) -> (result: Result<u64, ResolutionError>)
    ensures
        is_resolution(result, resolution(entry.tags@, table@)),
{
    let ghost texts = tag_texts(entry.tags@);
    let ghost known = names_task(table@);
    let mut found: Option<(usize, u64)> = None;
    let mut at: usize = 0;
    assert(texts.take(0).filter(known).len() == 0) by {
        texts.take(0).lemma_filter_len(known);
    }
    while at < entry.tags.len()
        invariant
            at <= entry.tags.len(),
            texts == tag_texts(entry.tags@),
            known == names_task(table@),
            match found {
                None => texts.take(at as int).filter(known).len() == 0,
                Some((first, id)) => {
                    &&& first < at
                    &&& texts.take(at as int).filter(known) == seq![texts[first as int]]
                    &&& table@.dom().contains(texts[first as int])
                    &&& id == table@[texts[first as int]]
                },
            },
        decreases entry.tags.len() - at,
    {
        let tag = &entry.tags[at];
        proof {
            assert(texts.take(at + 1) == texts.take(at as int).push(texts[at as int]));
            lemma_filter_push(texts.take(at as int), known, texts[at as int]);
        }
        match table.get(tag) {
            None => {},
            Some(id) => {
                match found {
                    None => {
                        found = Some((at, id));
                        assert(texts.take(at + 1).filter(known) == seq![texts[at as int]]);
                    },
                    Some((first, _)) => {
                        proof {
                            let head = texts.take(at + 1);
                            let tail = texts.skip(at + 1);
                            assert(texts == head + tail);
                            Seq::filter_distributes_over_add(head, tail, known);
                            let named = task_tags(entry.tags@, table@);
                            assert(head.filter(known) == seq![
                                texts[first as int],
                                texts[at as int],
                            ]);
                            assert(named[0] == texts[first as int]);
                            assert(named[1] == texts[at as int]);
                        }
                        return Err(
                            ResolutionError::Ambiguous {
                                tag_a: entry.tags[first].clone(),
                                tag_b: tag.clone(),
                            },
                        );
                    },
                }
            },
        }
        at += 1;
    }
    proof {
        assert(texts.take(at as int) == texts);
    }
    match found {
        None => Err(ResolutionError::NoTask),
        Some((_, id)) => Ok(id),
    }
}

/// Whether every entry of `entries` names exactly one task of `table`.
pub open spec fn all_resolve(entries: Seq<Entry>, table: Map<Seq<char>, u64>) -> bool {
    forall|i: int| 0 <= i < entries.len() ==> resolution(#[trigger] entries[i].tags@, table) is Ok
}

/// Whether `resolved` attributes the entry `entry` to the task that its tags name in `table`.
pub open spec fn is_attribution(
    resolved: ResolvedEntry,
    entry: Entry,
    table: Map<Seq<char>, u64>,
) -> bool {
    resolved.entry == entry && resolution(entry.tags@, table) == Ok::<u64, ResolutionErrorView>(
        resolved.task_id,
    )
}

/// Attributes every entry to its task, or stops at the first entry that
/// names no task or more than one.
pub fn get_tasks_with_entries(entries: Vec<Entry>, table: &TaskTable) -> (result: Result<
    Vec<ResolvedEntry>,
    ResolveFailure,
>)
    ensures
        match result {
            Ok(resolved) => {
                &&& all_resolve(entries@, table@)
                &&& resolved@.len() == entries@.len()
                &&& forall|i: int|
                    0 <= i < resolved@.len() ==> is_attribution(
                        #[trigger] resolved@[i],
                        entries@[i],
                        table@,
                    )
            },
            Err(failure) => exists|at: int|
                {
                    &&& 0 <= at < entries@.len()
                    &&& all_resolve(entries@.take(at), table@)
                    &&& failure.entry == #[trigger] entries@[at]
                    &&& resolution(entries@[at].tags@, table@) == Err::<u64, ResolutionErrorView>(
                        failure.error@,
                    )
                },
        },
{
    let ghost all = entries@;
    let mut resolved: Vec<ResolvedEntry> = Vec::new();
    for entry in it: entries
        invariant
            it.seq() == all,
            all_resolve(all.take(it.index() as int), table@),
            resolved@.len() == it.index(),
            forall|i: int|
                0 <= i < resolved@.len() ==> is_attribution(#[trigger] resolved@[i], all[i], table@),
    {
        let ghost at = it.index() as int;
        match resolve(&entry, table) {
            Ok(task_id) => {
                resolved.push(ResolvedEntry { entry, task_id });
                proof {
                    assert forall|i: int| 0 <= i < at + 1 implies resolution(
                        #[trigger] all.take(at + 1)[i].tags@,
                        table@,
                    ) is Ok by {
                        if i < at {
                            assert(all.take(at + 1)[i] == all.take(at)[i]);
                        }
                    }
                }
            },
            Err(error) => {
                return Err(ResolveFailure { entry, error });
            },
        }
    }
    proof {
        assert(all.take(all.len() as int) == all);
    }
    Ok(resolved)
}

proof fn lemma_filter_keeps_distinct<A>(s: Seq<A>, p: spec_fn(A) -> bool)
    requires
        s.no_duplicates(),
    ensures
        s.filter(p).no_duplicates(),
        forall|x: A| s.filter(p).contains(x) <==> s.contains(x) && p(x),
    decreases s.len(),
{
    reveal(Seq::filter);
    if s.len() > 0 {
        let init = s.drop_last();
        lemma_filter_keeps_distinct(init, p);
        assert forall|x: A| s.filter(p).contains(x) <==> s.contains(x) && p(x) by {
            if s.contains(x) {
                let i = choose|i: int| 0 <= i < s.len() && s[i] == x;
                if i < s.len() - 1 {
                    assert(init[i] == x);
                }
            }
            if init.contains(x) {
                let i = choose|i: int| 0 <= i < init.len() && init[i] == x;
                assert(s[i] == x);
            }
            if p(s.last()) {
                let kept = init.filter(p).push(s.last());
                assert(kept[kept.len() - 1] == s.last());
                if kept.contains(x) {
                    let i = choose|i: int| 0 <= i < kept.len() && kept[i] == x;
                    if i < kept.len() - 1 {
                        assert(init.filter(p)[i] == x);
                    }
                }
                if init.filter(p).contains(x) {
                    let i = choose|i: int| 0 <= i < init.filter(p).len() && init.filter(p)[i] == x;
                    assert(kept[i] == x);
                }
            }
        }
        if p(s.last()) {
            assert(!init.contains(s.last())) by {
                if init.contains(s.last()) {
                    let i = choose|i: int| 0 <= i < init.len() && init[i] == s.last();
                    assert(s[i] == s[s.len() - 1]);
                }
            }
        }
    } else {
        assert forall|x: A| s.filter(p).contains(x) <==> s.contains(x) && p(x) by {}
    }
}

/// Resolver totality: an entry whose tags are pairwise distinct is attributed
/// to a task exactly when one of its tags names a task, finds no task exactly
/// when none does, and is ambiguous exactly when more than one does.
pub proof fn law_resolver_totality(tags: Seq<String>, table: Map<Seq<char>, u64>)
    requires
        tag_texts(tags).no_duplicates(),
    ensures
        tag_texts(tags).to_set().intersect(table.dom()).finite(),
        resolution(tags, table) is Ok <==> tag_texts(tags).to_set().intersect(table.dom()).len()
            == 1,
        resolution(tags, table) == Err::<u64, ResolutionErrorView>(ResolutionErrorView::NoTask)
            <==> tag_texts(tags).to_set().intersect(table.dom()).len() == 0,
        resolution(tags, table) matches Err(ResolutionErrorView::Ambiguous { .. }) <==> tag_texts(
            tags,
        ).to_set().intersect(table.dom()).len() >= 2,
{
    let texts = tag_texts(tags);
    let named = task_tags(tags, table);
    lemma_filter_keeps_distinct(texts, names_task(table));
    named.unique_seq_to_set();
    assert(named.to_set() =~= texts.to_set().intersect(table.dom()));
}

} // verus!
