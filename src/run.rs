//! The course of an extraction run: which entities are resolved, which are
//! extracted or skipped, and what is reported after each of them.
use vstd::prelude::*;
use vstd::string::*;
use vstd::multiset::Multiset;
use vstd::seq_lib::lemma_multiset_commutative;
use crate::naming::{display_name, display_name_of};
use crate::text::{join_lines, lines_of, nat_text, u64_text, views};

verus! {

/// An entity whose schema code was found.
pub struct ResolvedEntity {
    /// The configured name.
    pub name: String,
    /// The schema that holds its tables.
    pub code: String,
    /// The short name of its folder and files.
    pub display: String,
}

impl ResolvedEntity {
    pub open spec fn wf(&self) -> bool {
        self.display@ == display_name_of(self.name@)
    }
}

/// The outcome of looking up one configured name: the schema code found,
/// or `None` where the lookup found no row or failed.
pub struct Lookup {
    pub name: String,
    pub code: Option<String>,
}

/// The configured names of lookups.
pub open spec fn lookup_names(v: Seq<Lookup>) -> Seq<Seq<char>> {
    v.map_values(|l: Lookup| l.name@)
}

/// The codes that lookups found.
pub open spec fn lookup_codes(v: Seq<Lookup>) -> Seq<Option<Seq<char>>> {
    v.map_values(
        |l: Lookup|
            match l.code {
                Some(s) => Some(s@),
                None => None,
            },
    )
}

/// The names and codes of resolved entities.
pub open spec fn entity_pairs(v: Seq<ResolvedEntity>) -> Seq<(Seq<char>, Seq<char>)> {
    v.map_values(|e: ResolvedEntity| (e.name@, e.code@))
}

/// The names of resolved entities.
pub open spec fn entity_names(v: Seq<ResolvedEntity>) -> Seq<Seq<char>> {
    v.map_values(|e: ResolvedEntity| e.name@)
}

/// Each name whose lookup found a code, with that code, in configured order.
pub open spec fn resolved_pairs(names: Seq<Seq<char>>, codes: Seq<Option<Seq<char>>>) -> Seq<
    (Seq<char>, Seq<char>),
>
    decreases names.len(),
{
    if names.len() == 0 || codes.len() == 0 {
        Seq::empty()
    } else {
        let before = resolved_pairs(names.drop_last(), codes.drop_last());
        match codes.last() {
            Some(c) => before.push((names.last(), c)),
            None => before,
        }
    }
}

/// Each name whose lookup found no code, in configured order.
pub open spec fn unresolved_names(names: Seq<Seq<char>>, codes: Seq<Option<Seq<char>>>) -> Seq<
    Seq<char>,
>
    decreases names.len(),
{
    if names.len() == 0 || codes.len() == 0 {
        Seq::empty()
    } else {
        let before = unresolved_names(names.drop_last(), codes.drop_last());
        match codes.last() {
            Some(c) => before,
            None => before.push(names.last()),
        }
    }
}

/// The first components of pairs.
pub open spec fn firsts(v: Seq<(Seq<char>, Seq<char>)>) -> Seq<Seq<char>> {
    v.map_values(|p: (Seq<char>, Seq<char>)| p.0)
}

proof fn lemma_resolution_partitions(names: Seq<Seq<char>>, codes: Seq<Option<Seq<char>>>)
    requires
        names.len() == codes.len(),
    ensures
        firsts(resolved_pairs(names, codes)).to_multiset().add(
            unresolved_names(names, codes).to_multiset(),
        ) =~= names.to_multiset(),
    decreases names.len(),
{
    broadcast use vstd::seq_lib::group_to_multiset_ensures;

    if names.len() > 0 {
        let n = names.drop_last();
        let c = codes.drop_last();
        lemma_resolution_partitions(n, c);
        assert(names =~= n.push(names.last()));
        match codes.last() {
            Some(code) => {
                assert(firsts(resolved_pairs(n, c).push((names.last(), code))) =~= firsts(
                    resolved_pairs(n, c),
                ).push(names.last()));
            },
            None => {},
        }
    } else {
        assert(names.to_multiset() =~= Multiset::empty());
    }
}

proof fn lemma_resolution_counts(names: Seq<Seq<char>>, codes: Seq<Option<Seq<char>>>)
    requires
        names.len() == codes.len(),
    ensures
        resolved_pairs(names, codes).len() + unresolved_names(names, codes).len() == names.len(),
    decreases names.len(),
{
    if names.len() > 0 {
        lemma_resolution_counts(names.drop_last(), codes.drop_last());
    }
}

/// Resolution accounts for every configured name exactly once: the names
/// that resolved, in order, and the names that did not make up the
/// configured names, duplicates counted, and their numbers add up to the
/// number of names.
pub proof fn law_resolution_partitions(lookups: Seq<Lookup>)
    ensures
        firsts(resolved_pairs(lookup_names(lookups), lookup_codes(lookups))).to_multiset().add(
            unresolved_names(lookup_names(lookups), lookup_codes(lookups)).to_multiset(),
        ) == lookup_names(lookups).to_multiset(),
        resolved_pairs(lookup_names(lookups), lookup_codes(lookups)).len() + unresolved_names(
            lookup_names(lookups),
            lookup_codes(lookups),
        ).len() == lookups.len(),
{
    lemma_resolution_partitions(lookup_names(lookups), lookup_codes(lookups));
    lemma_resolution_counts(lookup_names(lookups), lookup_codes(lookups));
}

/// The status line sent before an entity is probed.
pub open spec fn check_text(display: Seq<char>) -> Seq<char> {
    "Checking "@ + display + ", please wait..."@
}

/// The status line sent when an entity is done: its place among the entities
/// done so far, its short name and the rows of its ledger table.
pub open spec fn done_text(count: nat, display: Seq<char>, rows: nat) -> Seq<char> {
    "("@ + nat_text(count) + ") "@ + display + ": "@ + nat_text(rows) + " rows"@
}

/// The error line of an entity whose tables could not be read.
pub open spec fn error_text(display: Seq<char>, message: Seq<char>) -> Seq<char> {
    "Error with company "@ + display + ": "@ + message
}

/// What came of extracting one entity's tables.
pub enum EntityResult {
    /// Both tables were written; the ledger table had `rows` rows.
    Extracted { rows: u64 },
    /// A query on one of its tables failed with `message`.
    QueryFailed { message: String },
}

/// What is reported after one entity.
pub enum Report {
    /// The progress, as the fraction `done / total` of the resolved
    /// entities handled so far (a value in `[0, 100]` once multiplied by
    /// 100), and a status line.
    Done { done: u64, total: u64, message: String },
    /// An error line; it is also the whole content of the entity error
    /// artifact, which keeps the most recent failure only.
    Failed { error: String },
}

/// The message that ends a run.
pub open spec fn completion_text() -> Seq<char> {
    "Congratulations! 数据下载成功!"@
}

/// Returns the message that ends a run.
pub fn completion_message() -> (r: String)
    ensures
        r@ == completion_text(),
{
    String::from_str("Congratulations! 数据下载成功!")
}

fn check_line(display: &str) -> (r: String)
    ensures
        r@ == check_text(display@),
{
    let mut r = String::from_str("Checking ");
    r.append(display);
    r.append(", please wait...");
    r
}

fn done_line(count: u64, display: &str, rows: u64) -> (r: String)
    ensures
        r@ == done_text(count as nat, display@, rows as nat),
{
    let mut r = String::from_str("(");
    r.append(u64_text(count).as_str());
    r.append(") ");
    r.append(display);
    r.append(": ");
    r.append(u64_text(rows).as_str());
    r.append(" rows");
    r
}

fn error_line(display: &str, message: &str) -> (r: String)
    ensures
        r@ == error_text(display@, message@),
{
    let mut r = String::from_str("Error with company ");
    r.append(display);
    r.append(": ");
    r.append(message);
    r
}

/// The state of a run: the resolved entities in configured order, how many
/// of them have been handled, and the ledgers of names that succeeded, that
/// failed, and that were never resolved.
pub struct Run {
    entities: Vec<ResolvedEntity>,
    next: usize,
    succeeded: Vec<String>,
    succeeded_display: Vec<String>,
    failed: Vec<String>,
    unresolved: Vec<String>,
    names: Ghost<Seq<Seq<char>>>,
}

impl Run {
    /// The configured entity names.
    pub closed spec fn configured(&self) -> Seq<Seq<char>> {
        self.names@
    }

    /// The resolved entities, in configured order.
    pub closed spec fn entities(&self) -> Seq<ResolvedEntity> {
        self.entities@
    }

    /// How many resolved entities have been handled.
    pub closed spec fn position(&self) -> nat {
        self.next as nat
    }

    /// The names of the entities that were extracted.
    pub closed spec fn succeeded(&self) -> Seq<Seq<char>> {
        views(self.succeeded@)
    }

    /// The names of the entities whose queries failed.
    pub closed spec fn failed(&self) -> Seq<Seq<char>> {
        views(self.failed@)
    }

    /// The names that did not resolve to a schema code.
    pub closed spec fn unresolved(&self) -> Seq<Seq<char>> {
        views(self.unresolved@)
    }

    /// The short names of the entities that were extracted.
    pub closed spec fn succeeded_display(&self) -> Seq<Seq<char>> {
        views(self.succeeded_display@)
    }

    /// The names of the resolved entities not handled yet.
    pub open spec fn pending(&self) -> Seq<Seq<char>> {
        entity_names(self.entities().subrange(self.position() as int, self.entities().len() as int))
    }

    /// Every resolved entity has been handled.
    pub open spec fn finished(&self) -> bool {
        self.position() >= self.entities().len()
    }

    /// The entities are well formed, and every configured name is pending or
    /// in exactly one of the three ledgers, duplicates counted.
    pub open spec fn wf(&self) -> bool {
        &&& self.position() <= self.entities().len()
        &&& forall|i: int| 0 <= i < self.entities().len() ==> #[trigger] self.entities()[i].wf()
        &&& self.pending().to_multiset().add(self.succeeded().to_multiset()).add(
            self.failed().to_multiset(),
        ).add(self.unresolved().to_multiset()) == self.configured().to_multiset()
        &&& self.inner_wf()
    }

    /// The short names of the entities that were extracted match their names.
    pub closed spec fn inner_wf(&self) -> bool {
        self.succeeded_display() == self.succeeded().map_values(|n: Seq<char>| display_name_of(n))
    }

    /// Starts a run over the lookups of the configured names, one for each
    /// name in configured order. The entities that resolved keep that order;
    /// the others go to the unresolved ledger.
    pub fn new(lookups: &Vec<Lookup>) -> (r: Run)
        ensures
            r.wf(),
            r.configured() == lookup_names(lookups@),
            entity_pairs(r.entities()) == resolved_pairs(lookup_names(lookups@), lookup_codes(lookups@)),
            r.unresolved() == unresolved_names(lookup_names(lookups@), lookup_codes(lookups@)),
            r.entities().len() + r.unresolved().len() == r.configured().len(),
            r.succeeded().len() == 0,
            r.failed().len() == 0,
            r.position() == 0,
    {
        let mut entities: Vec<ResolvedEntity> = Vec::new();
        let mut unresolved: Vec<String> = Vec::new();
        let ghost all_names = lookup_names(lookups@);
        let ghost all_codes = lookup_codes(lookups@);
        let mut i: usize = 0;
        while i < lookups.len()
            invariant
                all_names == lookup_names(lookups@),
                all_codes == lookup_codes(lookups@),
                i <= lookups@.len(),
                entity_pairs(entities@) == resolved_pairs(
                    all_names.subrange(0, i as int),
                    all_codes.subrange(0, i as int),
                ),
                views(unresolved@) == unresolved_names(
                    all_names.subrange(0, i as int),
                    all_codes.subrange(0, i as int),
                ),
                forall|k: int| 0 <= k < entities@.len() ==> #[trigger] entities@[k].wf(),
            decreases lookups@.len() - i,
        {
            let ghost n = all_names.subrange(0, i + 1);
            let ghost c = all_codes.subrange(0, i + 1);
            assert(n.drop_last() =~= all_names.subrange(0, i as int));
            assert(c.drop_last() =~= all_codes.subrange(0, i as int));
            match &lookups[i].code {
                Some(code) => {
                    let name = lookups[i].name.clone();
                    let display = display_name(name.as_str());
                    let ghost before = entities@;
                    entities.push(ResolvedEntity { name, code: code.clone(), display });
                    assert(entity_pairs(entities@) =~= entity_pairs(before).push(
                        (n.last(), c.last()->Some_0),
                    ));
                },
                None => {
                    let ghost before = unresolved@;
                    unresolved.push(lookups[i].name.clone());
                    assert(views(unresolved@) =~= views(before).push(n.last()));
                },
            }
            i = i + 1;
        }
        assert(all_names.subrange(0, i as int) =~= all_names);
        assert(all_codes.subrange(0, i as int) =~= all_codes);
        proof {
            lemma_resolution_partitions(all_names, all_codes);
            assert(entity_names(entities@) =~= firsts(entity_pairs(entities@)));
            lemma_resolution_counts(all_names, all_codes);
            assert(entities@.subrange(0, entities@.len() as int) =~= entities@);
        }
        let r = Run {
            entities,
            next: 0,
            succeeded: Vec::new(),
            succeeded_display: Vec::new(),
            failed: Vec::new(),
            unresolved,
            names: Ghost(all_names),
        };
        proof {
            broadcast use vstd::seq_lib::group_to_multiset_ensures;

            assert(r.succeeded() =~= Seq::empty());
            assert(r.failed() =~= Seq::empty());
            assert(r.succeeded_display() =~= Seq::empty());
            assert(r.succeeded().map_values(|n: Seq<char>| display_name_of(n)) =~= Seq::empty());
            assert(r.succeeded().to_multiset() =~= Multiset::empty());
            assert(r.failed().to_multiset() =~= Multiset::empty());
            assert(r.pending() =~= entity_names(r.entities@));
            assert(r.pending().to_multiset().add(r.succeeded().to_multiset()).add(
                r.failed().to_multiset(),
            ).add(r.unresolved().to_multiset()) =~= r.configured().to_multiset());
            assert(r.position() <= r.entities().len());
            assert(r.inner_wf());
        }
        r
    }

    /// The entity to handle next, or `None` once every one was handled.
    pub fn current(&self) -> (r: Option<&ResolvedEntity>)
        requires
            self.wf(),
        ensures
            r.is_some() == !self.finished(),
            r matches Some(e) ==> *e == self.entities()[self.position() as int],
    {
        if self.next < self.entities.len() {
            Some(&self.entities[self.next])
        } else {
            None
        }
    }

    /// The status line sent before the next entity is probed.
    pub fn check_message(&self) -> (r: String)
        requires
            self.wf(),
            !self.finished(),
        ensures
            r@ == check_text(self.entities()[self.position() as int].display@),
    {
        check_line(self.entities[self.next].display.as_str())
    }

    /// Records what came of the next entity and says what to report. An
    /// extracted entity joins the success ledger and advances the progress;
    /// a failed one joins the failure ledger, and the run goes on.
    pub fn record(&mut self, result: EntityResult) -> (r: Report)
        requires
            old(self).wf(),
            !old(self).finished(),
        ensures
            final(self).wf(),
            final(self).configured() == old(self).configured(),
            final(self).entities() == old(self).entities(),
            final(self).unresolved() == old(self).unresolved(),
            final(self).position() == old(self).position() + 1,
            match result {
                EntityResult::Extracted { rows } => {
                    &&& final(self).succeeded() == old(self).succeeded().push(
                        old(self).entities()[old(self).position() as int].name@,
                    )
                    &&& final(self).failed() == old(self).failed()
                    &&& r matches Report::Done { done, total, message } && done == old(
                        self,
                    ).position() + 1 && total == old(self).entities().len() && message@ == done_text(
                        final(self).succeeded().len(),
                        old(self).entities()[old(self).position() as int].display@,
                        rows as nat,
                    )
                },
                EntityResult::QueryFailed { message } => {
                    &&& final(self).failed() == old(self).failed().push(
                        old(self).entities()[old(self).position() as int].name@,
                    )
                    &&& final(self).succeeded() == old(self).succeeded()
                    &&& r matches Report::Failed { error } && error@ == error_text(
                        old(self).entities()[old(self).position() as int].display@,
                        message@,
                    )
                },
            },
    {
        let ghost pre = *self;
        let i = self.next;
        let total = self.entities.len();
        proof {
            broadcast use vstd::seq_lib::group_to_multiset_ensures;

            let x = pre.entities()[i as int].name@;
            let rest = entity_names(pre.entities().subrange(i + 1, total as int));
            assert(pre.pending() =~= seq![x] + rest);
            lemma_multiset_commutative(seq![x], rest);
            assert(seq![x] =~= Seq::<Seq<char>>::empty().push(x));
        }
        let report = match result {
            EntityResult::Extracted { rows } => {
                let name = self.entities[i].name.clone();
                let display = self.entities[i].display.clone();
                self.succeeded.push(name);
                self.succeeded_display.push(display);
                let count = self.succeeded.len() as u64;
                let message = done_line(count, self.entities[i].display.as_str(), rows);
                Report::Done { done: (i + 1) as u64, total: total as u64, message }
            },
            EntityResult::QueryFailed { message } => {
                let name = self.entities[i].name.clone();
                self.failed.push(name);
                let error = error_line(self.entities[i].display.as_str(), message.as_str());
                Report::Failed { error }
            },
        };
        self.next = i + 1;
        proof {
            assert(self.succeeded() =~= views(self.succeeded@));
            assert(self.failed() =~= views(self.failed@));
            assert(self.pending() =~= entity_names(
                pre.entities().subrange(i + 1, total as int),
            ));
            if self.succeeded@.len() > pre.succeeded@.len() {
                assert(pre.entities()[i as int].wf());
                assert(pre.inner_wf());
                assert(self.succeeded() =~= pre.succeeded().push(pre.entities()[i as int].name@));
                assert(self.succeeded_display() =~= pre.succeeded_display().push(
                    pre.entities()[i as int].display@,
                ));
                assert(self.succeeded().map_values(|n: Seq<char>| display_name_of(n))
                    =~= pre.succeeded().map_values(|n: Seq<char>| display_name_of(n)).push(
                    display_name_of(pre.entities()[i as int].name@),
                ));
                assert(self.failed() =~= pre.failed());
            } else {
                assert(self.failed() =~= pre.failed().push(pre.entities()[i as int].name@));
                assert(self.succeeded() =~= pre.succeeded());
                assert(self.succeeded_display() =~= pre.succeeded_display());
            }
            assert(self.pending().to_multiset().add(self.succeeded().to_multiset()).add(
                self.failed().to_multiset(),
            ).add(self.unresolved().to_multiset()) =~= self.configured().to_multiset());
            assert(self.inner_wf());
            assert(self.entities() == pre.entities());
            assert(self.position() <= self.entities().len());
        }
        report
    }

    /// Whether every resolved entity has been handled.
    pub fn is_finished(&self) -> (r: bool)
        requires
            self.wf(),
        ensures
            r == self.finished(),
    {
        self.next >= self.entities.len()
    }

    /// The content of the success artifact: the short name of each extracted
    /// entity on a line of its own, in the order they were done.
    pub fn success_log(&self) -> (r: String)
        requires
            self.wf(),
        ensures
            r@ == lines_of(self.succeeded().map_values(|n: Seq<char>| display_name_of(n))),
    {
        join_lines(&self.succeeded_display)
    }

    /// The content of the unresolved-names artifact, one name on each line,
    /// or `None` where every name resolved and no artifact is written.
    pub fn unresolved_log(&self) -> (r: Option<String>)
        requires
            self.wf(),
        ensures
            r.is_none() == (self.unresolved().len() == 0),
            r matches Some(t) ==> t@ == lines_of(self.unresolved()),
    {
        if self.unresolved.len() == 0 {
            None
        } else {
            Some(join_lines(&self.unresolved))
        }
    }
}

/// A finished run accounts for every configured name exactly once: the
/// names that were extracted, the names whose queries failed and the names
/// that did not resolve make up the configured names, duplicates counted,
/// with nothing left out and nothing in two ledgers.
pub proof fn law_ledgers_partition(run: &Run)
    requires
        run.wf(),
        run.finished(),
    ensures
        run.succeeded().to_multiset().add(run.failed().to_multiset()).add(
            run.unresolved().to_multiset(),
        ) == run.configured().to_multiset(),
{
    broadcast use vstd::seq_lib::group_to_multiset_ensures;

    assert(run.pending() =~= Seq::empty());
    assert(run.pending().to_multiset() =~= Multiset::empty());
    assert(run.succeeded().to_multiset().add(run.failed().to_multiset()).add(
        run.unresolved().to_multiset(),
    ) =~= run.pending().to_multiset().add(run.succeeded().to_multiset()).add(
        run.failed().to_multiset(),
    ).add(run.unresolved().to_multiset()));
}

} // verus!
