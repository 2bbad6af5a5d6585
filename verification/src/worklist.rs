//! The modules that are left to be looked at, and those that are done.

use vstd::prelude::*;

use crate::modules;
use crate::modules::ModuleInfo;
use crate::text;

verus! {

/// What is left to do, and what is done.
#[verifier::ext_equal]
pub struct Work {
    /// Names still to be looked at; the last one comes next.
    pub pending: Seq<Seq<char>>,
    /// Names that were looked at, each once.
    pub processed: Seq<Seq<char>>,
    /// The modules that were found and extracted.
    pub extracted: Seq<modules::Module>,
}

/// The work at the start: nothing is done, and the needed modules are pending.
pub open spec fn fresh_work(needed: Seq<Seq<char>>) -> Work {
    Work { pending: needed, processed: Seq::empty(), extracted: Seq::empty() }
}

/// The work once the next name has been taken up: names at the end of the pending ones that
/// were looked at before are dropped, and the one before them, if any, is the next.
pub open spec fn after_next(work: Work) -> Work
    decreases work.pending.len(),
{
    if work.pending.len() == 0 {
        work
    } else {
        let rest = Work { pending: work.pending.drop_last(), ..work };
        if work.processed.contains(work.pending.last()) {
            after_next(rest)
        } else {
            Work { processed: work.processed.push(work.pending.last()), ..rest }
        }
    }
}

/// A name that was not looked at before is pending.
pub open spec fn has_next(work: Work) -> bool
    decreases work.pending.len(),
{
    work.pending.len() > 0 && (!work.processed.contains(work.pending.last()) || has_next(
        Work { pending: work.pending.drop_last(), ..work },
    ))
}

/// The work once a module has been extracted: those of its dependencies that were not looked
/// at yet are pending.
pub open spec fn after_extracting(work: Work, module: modules::Module) -> Work {
    Work {
        pending: work.pending + module.dependencies.filter(
            |dep: Seq<char>| !work.processed.contains(dep),
        ),
        extracted: work.extracted.push(module),
        ..work
    }
}

/// The name was looked at, or will be.
pub open spec fn known(work: Work, name: Seq<char>) -> bool {
    work.processed.contains(name) || work.pending.contains(name)
}

/// One of the modules is named `name` and depends on `dep`.
pub open spec fn depends(list: Seq<modules::Module>, name: Seq<char>, dep: Seq<char>) -> bool {
    exists|i: int|
        0 <= i < list.len() && (#[trigger] list[i]).name == name && list[i].dependencies.contains(
            dep,
        )
}

/// The chain starts with a root, and each name in it depends on the one behind it.
pub open spec fn is_chain(
    roots: Seq<Seq<char>>,
    list: Seq<modules::Module>,
    chain: Seq<Seq<char>>,
) -> bool {
    &&& chain.len() > 0
    &&& roots.contains(chain[0])
    &&& forall|i: int|
        0 < i < chain.len() ==> depends(list, chain[i - 1], #[trigger] chain[i])
}

/// The name is a root, or a dependency, at some remove, of one.
pub open spec fn reached(roots: Seq<Seq<char>>, list: Seq<modules::Module>, name: Seq<char>) -> bool {
    exists|chain: Seq<Seq<char>>| #[trigger]
        is_chain(roots, list, chain) && chain.last() == name
}

/// What holds of the work throughout: no name is looked at twice, no module is extracted twice
/// or without having been looked at, and what was looked at or is pending are the roots and
/// the dependencies of the extracted modules, and nothing that these do not lead to.
pub open spec fn consistent(work: Work, roots: Seq<Seq<char>>) -> bool {
    &&& work.processed.no_duplicates()
    &&& modules::distinct_names(work.extracted)
    &&& forall|i: int|
        0 <= i < work.extracted.len() ==> work.processed.contains(
            (#[trigger] work.extracted[i]).name,
        )
    &&& forall|name: Seq<char>| roots.contains(name) ==> #[trigger] known(work, name)
    &&& forall|name: Seq<char>, dep: Seq<char>| #[trigger]
        depends(work.extracted, name, dep) ==> known(work, dep)
    &&& forall|name: Seq<char>| #[trigger]
        known(work, name) ==> reached(roots, work.extracted, name)
}

/// At the start the work is consistent.
pub proof fn lemma_fresh_work(roots: Seq<Seq<char>>)
    ensures
        consistent(fresh_work(roots), roots),
{
    let work = fresh_work(roots);
    assert forall|name: Seq<char>| #[trigger] known(work, name) implies reached(
        roots,
        work.extracted,
        name,
    ) by {
        let chain = seq![name];
        assert(is_chain(roots, work.extracted, chain));
    }
}

/// Taking up the next name keeps the work consistent. Where there is a next name, it becomes
/// the last of those that were looked at, and was none of them before; where there is none,
/// nothing is left pending.
pub proof fn lemma_next(work: Work, roots: Seq<Seq<char>>)
    requires
        consistent(work, roots),
    ensures
        consistent(after_next(work), roots),
        after_next(work).extracted == work.extracted,
        has_next(work) ==> {
            &&& after_next(work).processed.len() == work.processed.len() + 1
            &&& after_next(work).processed.drop_last() == work.processed
            &&& !work.processed.contains(after_next(work).processed.last())
        },
        !has_next(work) ==> {
            &&& after_next(work).processed == work.processed
            &&& after_next(work).pending.len() == 0
        },
    decreases work.pending.len(),
{
    if work.pending.len() > 0 {
        let last = work.pending.last();
        let rest = Work { pending: work.pending.drop_last(), ..work };
        if work.processed.contains(last) {
            assert forall|name: Seq<char>| known(work, name) == #[trigger] known(rest, name) by {
                modules::lemma_contains_last(work.pending, name);
            }
            lemma_next(rest, roots);
        } else {
            let next = Work { processed: work.processed.push(last), ..rest };
            assert forall|name: Seq<char>| known(work, name) == #[trigger] known(next, name) by {
                modules::lemma_contains_last(work.pending, name);
                modules::lemma_contains_last(next.processed, name);
                assert(next.processed.drop_last() =~= work.processed);
            }
            assert(next.processed.drop_last() =~= work.processed);
            assert forall|i: int| 0 <= i < next.extracted.len() implies next.processed.contains(
                (#[trigger] next.extracted[i]).name,
            ) by {
                modules::lemma_contains_last(next.processed, next.extracted[i].name);
            }
        }
    }
}

/// The next name is the last of the pending ones that was not looked at yet; those behind it
/// are dropped, and those before it stay pending. Where all were looked at, there is none.
pub proof fn law_next_name(
    front: Seq<Seq<char>>,
    name: Seq<char>,
    back: Seq<Seq<char>>,
    processed: Seq<Seq<char>>,
    extracted: Seq<modules::Module>,
)
    requires
        !processed.contains(name),
        forall|i: int| 0 <= i < back.len() ==> processed.contains(#[trigger] back[i]),
    ensures
        has_next(Work { pending: front.push(name) + back, processed, extracted }),
        after_next(Work { pending: front.push(name) + back, processed, extracted }) == (Work {
            pending: front,
            processed: processed.push(name),
            extracted,
        }),
        !has_next(Work { pending: back, processed, extracted }),
        after_next(Work { pending: back, processed, extracted }) == (Work {
            pending: Seq::empty(),
            processed,
            extracted,
        }),
    decreases back.len(),
{
    let pending = front.push(name) + back;
    if back.len() == 0 {
        assert(pending =~= front.push(name));
        assert(pending.drop_last() =~= front);
        assert(back =~= Seq::<Seq<char>>::empty());
    } else {
        let less = back.drop_last();
        assert forall|i: int| 0 <= i < less.len() implies processed.contains(#[trigger] less[i]) by {
            assert(less[i] == back[i]);
        }
        law_next_name(front, name, less, processed, extracted);
        assert(processed.contains(back[back.len() - 1]));
        assert(pending.drop_last() =~= front.push(name) + less);
        assert(pending.last() == back.last());
    }
}

/// Extracting a module queues, behind what is pending, those of its dependencies that were not
/// looked at yet, in their order, and records the module; what was looked at stays so.
pub proof fn law_queued_dependencies(
    work: Work,
    name: Seq<char>,
    path: Seq<u8>,
    front: Seq<Seq<char>>,
    dep: Seq<char>,
)
    ensures
        after_extracting(work, modules::Module { name, path, dependencies: Seq::empty() }) == (Work {
            extracted: work.extracted.push(
                modules::Module { name, path, dependencies: Seq::empty() },
            ),
            ..work
        }),
        after_extracting(work, modules::Module { name, path, dependencies: front.push(dep) })
            == (Work {
            pending: if work.processed.contains(dep) {
                after_extracting(work, modules::Module { name, path, dependencies: front }).pending
            } else {
                after_extracting(
                    work,
                    modules::Module { name, path, dependencies: front },
                ).pending.push(dep)
            },
            extracted: work.extracted.push(
                modules::Module { name, path, dependencies: front.push(dep) },
            ),
            ..work
        }),
{
    let fresh = |d: Seq<char>| !work.processed.contains(d);
    assert(Seq::<Seq<char>>::empty().filter(fresh) =~= Seq::<Seq<char>>::empty()) by {
        reveal(Seq::filter);
    }
    assert(work.pending + Seq::<Seq<char>>::empty() =~= work.pending);
    front.lemma_filter_push(dep, fresh);
    let before = work.pending + front.filter(fresh);
    if fresh(dep) {
        assert(work.pending + front.push(dep).filter(fresh) =~= before.push(dep));
    }
}

/// A chain through some modules is one through more of them.
proof fn lemma_reached_grows(
    roots: Seq<Seq<char>>,
    list: Seq<modules::Module>,
    more: Seq<modules::Module>,
    name: Seq<char>,
)
    requires
        reached(roots, list, name),
        forall|a: Seq<char>, b: Seq<char>| #[trigger] depends(list, a, b) ==> depends(more, a, b),
    ensures
        reached(roots, more, name),
{
    let chain = choose|chain: Seq<Seq<char>>| #[trigger]
        is_chain(roots, list, chain) && chain.last() == name;
    assert(is_chain(roots, more, chain));
}

/// Extracting the module that was taken up last keeps the work consistent.
pub proof fn lemma_extracting(work: Work, roots: Seq<Seq<char>>, module: modules::Module)
    requires
        consistent(work, roots),
        work.processed.contains(module.name),
        !modules::has_named(work.extracted, module.name),
    ensures
        consistent(after_extracting(work, module), roots),
{
    let next = after_extracting(work, module);
    let fresh = |dep: Seq<char>| !work.processed.contains(dep);
    let queued = module.dependencies.filter(fresh);
    let old_list = work.extracted;
    let list = next.extracted;
    assert forall|a: Seq<char>, b: Seq<char>| #[trigger] depends(old_list, a, b) implies depends(
        list,
        a,
        b,
    ) by {
        let i = choose|i: int|
            0 <= i < old_list.len() && (#[trigger] old_list[i]).name == a
                && old_list[i].dependencies.contains(b);
        assert(list[i] == old_list[i]);
    }
    assert forall|name: Seq<char>| known(work, name) implies #[trigger] known(next, name) by {
        if work.pending.contains(name) {
            let i = choose|i: int| 0 <= i < work.pending.len() && work.pending[i] == name;
            assert(next.pending[i] == name);
        }
    }
    assert forall|dep: Seq<char>| module.dependencies.contains(dep) implies #[trigger] known(
        next,
        dep,
    ) by {
        if !work.processed.contains(dep) {
            let i = choose|i: int|
                0 <= i < module.dependencies.len() && module.dependencies[i] == dep;
            module.dependencies.lemma_filter_contains(fresh, i);
            let j = choose|j: int| 0 <= j < queued.len() && queued[j] == dep;
            assert(next.pending[work.pending.len() + j] == dep);
        }
    }
    assert forall|name: Seq<char>, dep: Seq<char>| #[trigger] depends(list, name, dep) implies known(
        next,
        dep,
    ) by {
        let i = choose|i: int|
            0 <= i < list.len() && (#[trigger] list[i]).name == name
                && list[i].dependencies.contains(dep);
        if i < old_list.len() {
            assert(old_list[i] == list[i]);
            assert(depends(old_list, name, dep));
            assert(known(work, dep));
        }
    }
    assert forall|name: Seq<char>| #[trigger] known(next, name) implies reached(
        roots,
        list,
        name,
    ) by {
        if known(work, name) {
            lemma_reached_grows(roots, old_list, list, name);
        } else {
            let i = choose|i: int| 0 <= i < next.pending.len() && next.pending[i] == name;
            if i < work.pending.len() {
                assert(work.pending.contains(work.pending[i]));
            }
            let j = i - work.pending.len();
            assert(queued[j] == name);
            assert(queued.contains(name));
            module.dependencies.lemma_filter_contains_rev(fresh, name);
            assert(known(work, module.name));
            lemma_reached_grows(roots, old_list, list, module.name);
            let chain = choose|chain: Seq<Seq<char>>| #[trigger]
                is_chain(roots, list, chain) && chain.last() == module.name;
            let longer = chain.push(name);
            assert(list[old_list.len() as int] == module);
            assert(depends(list, module.name, name));
            assert forall|k: int| 0 < k < longer.len() implies depends(
                list,
                longer[k - 1],
                #[trigger] longer[k],
            ) by {
                if k < chain.len() {
                    assert(longer[k] == chain[k]);
                }
            }
            assert(is_chain(roots, list, longer));
        }
    }
    assert forall|i: int, j: int| 0 <= i < j < list.len() implies (#[trigger] list[i]).name != (
    #[trigger] list[j]).name by {
        assert(list[i] == old_list[i]);
        if j == old_list.len() {
            assert(old_list[i].name != module.name);
        }
    }
    assert forall|i: int| 0 <= i < list.len() implies next.processed.contains(
        (#[trigger] list[i]).name,
    ) by {
        if i < old_list.len() {
            assert(list[i] == old_list[i]);
        }
    }
}

/// Once nothing is pending, the names that were looked at are exactly those that the roots
/// lead to through the dependencies of the extracted modules.
pub proof fn law_all_reached_are_processed(work: Work, roots: Seq<Seq<char>>, name: Seq<char>)
    requires
        consistent(work, roots),
        work.pending.len() == 0,
    ensures
        work.processed.contains(name) <==> reached(roots, work.extracted, name),
{
    if work.processed.contains(name) {
        assert(known(work, name));
    }
    if reached(roots, work.extracted, name) {
        let chain = choose|chain: Seq<Seq<char>>| #[trigger]
            is_chain(roots, work.extracted, chain) && chain.last() == name;
        lemma_chain_is_processed(work, roots, chain, chain.len() - 1);
    }
}

proof fn lemma_chain_is_processed(
    work: Work,
    roots: Seq<Seq<char>>,
    chain: Seq<Seq<char>>,
    i: int,
)
    requires
        consistent(work, roots),
        work.pending.len() == 0,
        is_chain(roots, work.extracted, chain),
        0 <= i < chain.len(),
    ensures
        work.processed.contains(chain[i]),
    decreases i,
{
    if i > 0 {
        assert(depends(work.extracted, chain[i - 1], chain[i]));
    }
    assert(known(work, chain[i]));
}

/// Ordering the extracted modules keeps the work consistent.
pub proof fn lemma_sorting(work: Work, roots: Seq<Seq<char>>)
    requires
        consistent(work, roots),
    ensures
        consistent(Work { extracted: modules::by_name(work.extracted), ..work }, roots),
        forall|name: Seq<char>| #[trigger]
            modules::has_named(modules::by_name(work.extracted), name) <==> modules::has_named(
                work.extracted,
                name,
            ),
{
    let list = work.extracted;
    let sorted = modules::by_name(list);
    let next = Work { extracted: sorted, ..work };
    modules::law_by_name_sorts(list);
    assert forall|name: Seq<char>| #[trigger]
        modules::has_named(sorted, name) <==> modules::has_named(list, name) by {
        lemma_named_carries_over(list, sorted, name);
        lemma_named_carries_over(sorted, list, name);
    }
    assert forall|a: Seq<char>, b: Seq<char>| #[trigger] depends(sorted, a, b) <==> depends(
        list,
        a,
        b,
    ) by {
        lemma_depends_carries_over(list, sorted, a, b);
        lemma_depends_carries_over(sorted, list, a, b);
    }
    assert forall|i: int| 0 <= i < sorted.len() implies work.processed.contains(
        (#[trigger] sorted[i]).name,
    ) by {
        assert(sorted.contains(sorted[i]));
        modules::lemma_same_members(sorted, list, sorted[i]);
        let k = choose|k: int| 0 <= k < list.len() && list[k] == sorted[i];
        assert(work.processed.contains(list[k].name));
    }
    assert forall|name: Seq<char>| known(work, name) == #[trigger] known(next, name) by {}
    assert forall|name: Seq<char>| #[trigger] known(next, name) implies reached(
        roots,
        sorted,
        name,
    ) by {
        assert(known(work, name));
        lemma_reached_grows(roots, list, sorted, name);
    }
}

proof fn lemma_named_carries_over(a: Seq<modules::Module>, b: Seq<modules::Module>, name: Seq<char>)
    requires
        a.to_multiset() == b.to_multiset(),
    ensures
        modules::has_named(a, name) ==> modules::has_named(b, name),
{
    if modules::has_named(a, name) {
        let i = choose|i: int| 0 <= i < a.len() && (#[trigger] a[i]).name == name;
        assert(a.contains(a[i]));
        modules::lemma_same_members(a, b, a[i]);
        let k = choose|k: int| 0 <= k < b.len() && b[k] == a[i];
        assert(b[k].name == name);
    }
}

proof fn lemma_depends_carries_over(
    a: Seq<modules::Module>,
    b: Seq<modules::Module>,
    name: Seq<char>,
    dep: Seq<char>,
)
    requires
        a.to_multiset() == b.to_multiset(),
    ensures
        depends(a, name, dep) ==> depends(b, name, dep),
{
    if depends(a, name, dep) {
        let i = choose|i: int|
            0 <= i < a.len() && (#[trigger] a[i]).name == name && a[i].dependencies.contains(dep);
        assert(a.contains(a[i]));
        modules::lemma_same_members(a, b, a[i]);
        let k = choose|k: int| 0 <= k < b.len() && b[k] == a[i];
        assert(b[k].name == name);
    }
}

/// The modules that are left to be looked at, and those that are done.
#[derive(Debug)]
pub struct Worklist {
    pending: Vec<String>,
    processed: Vec<String>,
    extracted: Vec<ModuleInfo>,
}

impl View for Worklist {
    type V = Work;

    closed spec fn view(&self) -> Work {
        Work {
            pending: text::views(self.pending@),
            processed: text::views(self.processed@),
            extracted: modules::module_views(self.extracted@),
        }
    }
}

impl Worklist {
    /// A worklist with the needed modules pending.
    pub fn new(needed: Vec<String>) -> (work: Worklist)
        ensures
            work@ == fresh_work(text::views(needed@)),
    {
        let work = Worklist { pending: needed, processed: Vec::new(), extracted: Vec::new() };
        assert(work@ =~= fresh_work(text::views(needed@)));
        work
    }

    /// Decides whether nothing is pending.
    pub fn is_idle(&self) -> (idle: bool)
        ensures
            idle == (self@.pending.len() == 0),
    {
        self.pending.len() == 0
    }

    /// Takes up the next name that was not looked at before.
    pub fn next(&mut self) -> (taken: bool)
        ensures
            final(self)@ == after_next(old(self)@),
            taken == has_next(old(self)@),
    {
        while self.pending.len() > 0
            invariant
                after_next(self@) == after_next(old(self)@),
                has_next(self@) == has_next(old(self)@),
            decreases self.pending@.len(),
        {
            let ghost before = self@;
            let ghost last: Seq<char> = self.pending@.last()@;
            assert(before.pending.last() == last);
            let known: bool = text::contains(
                &self.processed,
                self.pending[self.pending.len() - 1].as_str(),
            );
            if let Some(name) = self.pending.pop() {
                assert(self@ =~= Work { pending: before.pending.drop_last(), ..before });
                if !known {
                    let ghost rest = self@;
                    self.processed.push(name);
                    assert(self@ =~= Work { processed: rest.processed.push(last), ..rest });
                    return true;
                }
            }
        }
        false
    }

    /// Records an extracted module, and queues those of its dependencies that were not looked
    /// at yet.
    pub fn record(&mut self, module: ModuleInfo)
        ensures
            final(self)@ == after_extracting(old(self)@, module@),
    {
        let ghost start = self@;
        let ghost deps = text::views(module.dependencies@);
        let ghost fresh = |dep: Seq<char>| !start.processed.contains(dep);
        let mut i: usize = 0;
        assert(self@.pending =~= start.pending + deps.take(0).filter(fresh)) by {
            reveal(Seq::filter);
        }
        while i < module.dependencies.len()
            invariant
                i <= module.dependencies@.len(),
                deps == text::views(module.dependencies@),
                fresh == (|dep: Seq<char>| !start.processed.contains(dep)),
                self@.processed == start.processed,
                self@.extracted == start.extracted,
                self@.pending == start.pending + deps.take(i as int).filter(fresh),
            decreases module.dependencies@.len() - i,
        {
            let ghost before = self@.pending;
            let dep: &String = &module.dependencies[i];
            proof {
                assert(deps.take(i + 1) =~= deps.take(i as int).push(dep@));
                deps.take(i as int).lemma_filter_push(dep@, fresh);
            }
            if !text::contains(&self.processed, dep.as_str()) {
                self.pending.push(dep.clone());
                assert(self@.pending =~= before.push(dep@));
                assert(self@.pending =~= start.pending + deps.take(i + 1).filter(fresh));
            }
            i = i + 1;
        }
        assert(deps.take(i as int) =~= deps);
        self.extracted.push(module);
        assert(self@.extracted =~= start.extracted.push(module@));
        assert(self@ =~= after_extracting(start, module@));
    }

    /// Puts the extracted modules in the order of their names.
    pub fn sort(&mut self)
        ensures
            final(self)@ == (Work {
                extracted: modules::by_name(old(self)@.extracted),
                ..old(self)@
            }),
    {
        let mut unsorted: Vec<ModuleInfo> = Vec::new();
        std::mem::swap(&mut unsorted, &mut self.extracted);
        let ghost start = old(self)@;
        assert(modules::module_views(unsorted@) == start.extracted);
        self.extracted = modules::sort_modules(unsorted);
        assert(self@ =~= Work { extracted: modules::by_name(start.extracted), ..start });
    }

    /// The name that was taken up last.
    pub fn current(&self) -> (name: &str)
        requires
            self@.processed.len() > 0,
        ensures
            name@ == self@.processed.last(),
    {
        self.processed[self.processed.len() - 1].as_str()
    }

    /// Gives up the worklist for the modules that were extracted.
    pub fn into_extracted(self) -> (modules: Vec<ModuleInfo>)
        ensures
            modules::module_views(modules@) == self@.extracted,
    {
        self.extracted
    }

    /// The modules extracted so far.
    pub fn extracted(&self) -> (modules: &Vec<ModuleInfo>)
        ensures
            modules::module_views(modules@) == self@.extracted,
    {
        &self.extracted
    }
}

} // verus!
