//! The modules that are extracted, and their order.

use vstd::prelude::*;

use crate::path;
use crate::path::RawPath;
use crate::text;

verus! {

/// Information about a kernel module
#[derive(Debug)]
pub struct ModuleInfo {
    /// Module name
    pub name: String,
    /// Path to the .ko file
    pub path: RawPath,
    /// Dependencies (other module names)
    pub dependencies: Vec<String>,
}

/// A kernel module, as contracts speak of it.
pub struct Module {
    /// Module name
    pub name: Seq<char>,
    /// Path to the .ko file
    pub path: Seq<u8>,
    /// Dependencies (other module names)
    pub dependencies: Seq<Seq<char>>,
}

impl View for ModuleInfo {
    type V = Module;

    open spec fn view(&self) -> Module {
        Module {
            name: self.name@,
            path: self.path@,
            dependencies: text::views(self.dependencies@),
        }
    }
}

impl Clone for ModuleInfo {
    fn clone(&self) -> (res: ModuleInfo)
        ensures
            res@ == self@,
    {
        ModuleInfo {
            name: self.name.clone(),
            path: path::copy(self.path.as_slice()),
            dependencies: text::copy_all(&self.dependencies),
        }
    }
}

/// The modules that the descriptions describe.
pub open spec fn module_views(modules: Seq<ModuleInfo>) -> Seq<Module> {
    modules.map_values(|module: ModuleInfo| module@)
}

/// Descriptions are taken one for one, each with all its fields.
pub proof fn law_module_views(modules: Seq<ModuleInfo>, i: int)
    requires
        0 <= i < modules.len(),
    ensures
        module_views(modules).len() == modules.len(),
        module_views(modules)[i].name == modules[i].name@,
        module_views(modules)[i].path == modules[i].path@,
        module_views(modules)[i].dependencies.len() == modules[i].dependencies@.len(),
        forall|k: int|
            0 <= k < modules[i].dependencies@.len() ==> #[trigger] module_views(
                modules,
            )[i].dependencies[k] == modules[i].dependencies@[k]@,
{
}

/// The name of `a` stands before that of `b`, or equals it, in the order of their bytes.
pub open spec fn name_ordered(a: Module, b: Module) -> bool {
    text::ordered(vstd::utf8::encode_utf8(a.name), vstd::utf8::encode_utf8(b.name))
}

/// An ordered list with one more module, behind all those whose names do not come after its.
pub open spec fn placed(list: Seq<Module>, module: Module) -> Seq<Module>
    decreases list.len(),
{
    if list.len() == 0 || name_ordered(list.last(), module) {
        list.push(module)
    } else {
        placed(list.drop_last(), module).push(list.last())
    }
}

/// The modules in the order of their names; modules of one name stay in the order they had.
pub open spec fn by_name(modules: Seq<Module>) -> Seq<Module>
    decreases modules.len(),
{
    if modules.len() == 0 {
        modules
    } else {
        placed(by_name(modules.drop_last()), modules.last())
    }
}

/// One of the modules has the name.
pub open spec fn has_named(list: Seq<Module>, name: Seq<char>) -> bool {
    exists|i: int| 0 <= i < list.len() && (#[trigger] list[i]).name == name
}

/// No two of the modules have one name.
pub open spec fn distinct_names(list: Seq<Module>) -> bool {
    forall|i: int, j: int|
        0 <= i < j < list.len() ==> (#[trigger] list[i]).name != (#[trigger] list[j]).name
}

/// The modules stand in the order of their names.
pub open spec fn sorted_by_name(list: Seq<Module>) -> bool {
    forall|i: int, j: int|
        0 <= i <= j < list.len() ==> name_ordered(#[trigger] list[i], #[trigger] list[j])
}

/// What a sequence holds is its last element, or stands before it.
pub proof fn lemma_contains_last<A>(s: Seq<A>, x: A)
    requires
        s.len() > 0,
    ensures
        s.contains(x) <==> (s.drop_last().contains(x) || s.last() == x),
{
    if s.contains(x) {
        let i = choose|i: int| 0 <= i < s.len() && s[i] == x;
        if i < s.len() - 1 {
            assert(s.drop_last()[i] == x);
        }
    }
    if s.drop_last().contains(x) {
        let i = choose|i: int| 0 <= i < s.drop_last().len() && s.drop_last()[i] == x;
        assert(s[i] == x);
    }
    if s.last() == x {
        assert(s[s.len() - 1] == x);
    }
}

proof fn lemma_name_order(a: Module, b: Module, c: Module)
    ensures
        name_ordered(a, b) || name_ordered(b, a),
        name_ordered(a, b) && name_ordered(b, c) ==> name_ordered(a, c),
        name_ordered(a, b) && name_ordered(b, a) ==> a.name == b.name,
{
    let (x, y, z) = (
        vstd::utf8::encode_utf8(a.name),
        vstd::utf8::encode_utf8(b.name),
        vstd::utf8::encode_utf8(c.name),
    );
    text::lemma_ordered_total(x, y);
    if text::ordered(x, y) && text::ordered(y, z) {
        text::lemma_ordered_transitive(x, y, z);
    }
    if text::ordered(x, y) && text::ordered(y, x) {
        text::lemma_ordered_antisymmetric(x, y);
        text::lemma_encoding_injective(a.name, b.name);
    }
}

proof fn lemma_placed(list: Seq<Module>, module: Module)
    ensures
        placed(list, module).to_multiset() == list.to_multiset().insert(module),
        forall|x: Module| #[trigger]
            placed(list, module).contains(x) ==> list.contains(x) || x == module,
        sorted_by_name(list) ==> sorted_by_name(placed(list, module)),
        distinct_names(list) && !has_named(list, module.name) ==> distinct_names(
            placed(list, module),
        ),
    decreases list.len(),
{
    let all = placed(list, module);
    if list.len() == 0 || name_ordered(list.last(), module) {
        vstd::seq_lib::to_multiset_build(list, module);
        assert forall|x: Module| #[trigger] all.contains(x) implies list.contains(x) || x == module by {
            lemma_contains_last(all, x);
            assert(all.drop_last() =~= list);
        }
        if sorted_by_name(list) {
            assert forall|i: int, j: int| 0 <= i <= j < all.len() implies name_ordered(
                #[trigger] all[i],
                #[trigger] all[j],
            ) by {
                lemma_name_order(module, module, module);
                if i < list.len() && j == list.len() {
                    lemma_name_order(list[i], list.last(), module);
                    assert(name_ordered(list[i], list[list.len() - 1]));
                } else if j < list.len() {
                    assert(name_ordered(list[i], list[j]));
                }
            }
        }
        if distinct_names(list) && !has_named(list, module.name) {
            assert forall|i: int, j: int| 0 <= i < j < all.len() implies (#[trigger] all[i]).name
                != (#[trigger] all[j]).name by {
                assert(all[i] == list[i]);
                assert(list[i].name != module.name);
            }
        }
    } else {
        let front = list.drop_last();
        let last = list.last();
        let inner = placed(front, module);
        lemma_placed(front, module);
        assert(list =~= front.push(last));
        vstd::seq_lib::to_multiset_build(front, last);
        vstd::seq_lib::to_multiset_build(inner, last);
        assert(all.to_multiset() =~= list.to_multiset().insert(module));
        assert forall|x: Module| #[trigger] all.contains(x) implies list.contains(x) || x == module by {
            lemma_contains_last(all, x);
            lemma_contains_last(list, x);
            assert(all.drop_last() =~= inner);
        }
        if sorted_by_name(list) {
            assert(sorted_by_name(front));
            assert forall|i: int, j: int| 0 <= i <= j < all.len() implies name_ordered(
                #[trigger] all[i],
                #[trigger] all[j],
            ) by {
                lemma_name_order(last, last, last);
                if j < inner.len() {
                    assert(all[i] == inner[i] && all[j] == inner[j]);
                } else if i < inner.len() {
                    assert(all[i] == inner[i]);
                    assert(inner.contains(inner[i]));
                    if inner[i] == module {
                        lemma_name_order(module, last, last);
                    } else {
                        let k = choose|k: int| 0 <= k < front.len() && front[k] == inner[i];
                        assert(name_ordered(list[k], list[list.len() - 1]));
                    }
                }
            }
        }
        if distinct_names(list) && !has_named(list, module.name) {
            assert(!has_named(front, module.name)) by {
                if has_named(front, module.name) {
                    let k = choose|k: int| 0 <= k < front.len() && (#[trigger] front[k]).name == module.name;
                    assert(list[k].name == module.name);
                }
            }
            assert(distinct_names(front)) by {
                assert forall|i: int, j: int| 0 <= i < j < front.len() implies (
                #[trigger] front[i]).name != (#[trigger] front[j]).name by {
                    assert(list[i].name != list[j].name);
                }
            }
            assert forall|i: int, j: int| 0 <= i < j < all.len() implies (#[trigger] all[i]).name
                != (#[trigger] all[j]).name by {
                assert(all[i] == inner[i]);
                if j < inner.len() {
                    assert(all[j] == inner[j]);
                } else {
                    assert(inner.contains(inner[i]));
                    if inner[i] == module {
                        assert(list[list.len() - 1].name != module.name);
                    } else {
                        let k = choose|k: int| 0 <= k < front.len() && front[k] == inner[i];
                        assert(list[k].name != list[list.len() - 1].name);
                    }
                }
            }
        }
    }
}

/// Ordering by name gives the same modules, in the order of their names.
pub proof fn law_by_name_sorts(list: Seq<Module>)
    ensures
        by_name(list).to_multiset() == list.to_multiset(),
        sorted_by_name(by_name(list)),
        distinct_names(list) ==> distinct_names(by_name(list)),
    decreases list.len(),
{
    if list.len() > 0 {
        let front = list.drop_last();
        let last = list.last();
        law_by_name_sorts(front);
        lemma_placed(by_name(front), last);
        assert(list =~= front.push(last));
        vstd::seq_lib::to_multiset_build(front, last);
        if distinct_names(list) {
            assert forall|i: int, j: int| 0 <= i < j < front.len() implies (#[trigger] front[i]).name
                != (#[trigger] front[j]).name by {
                assert(list[i].name != list[j].name);
            }
            if has_named(by_name(front), last.name) {
                let k = choose|k: int|
                    0 <= k < by_name(front).len() && (#[trigger] by_name(front)[k]).name == last.name;
                assert(by_name(front).contains(by_name(front)[k]));
                lemma_same_members(by_name(front), front, by_name(front)[k]);
                let i = choose|i: int| 0 <= i < front.len() && front[i] == by_name(front)[k];
                assert(list[i].name != list[list.len() - 1].name);
            }
        }
    }
}

/// Modules of one name stay in the order that they had.
pub proof fn law_by_name_is_stable(list: Seq<Module>, name: Seq<char>)
    ensures
        by_name(list).filter(|module: Module| module.name == name) == list.filter(
            |module: Module| module.name == name,
        ),
    decreases list.len(),
{
    let same = |module: Module| module.name == name;
    if list.len() > 0 {
        let front = list.drop_last();
        law_by_name_is_stable(front, name);
        lemma_placed_is_stable(by_name(front), list.last(), name);
        assert(list =~= front.push(list.last()));
        front.lemma_filter_push(list.last(), same);
        by_name(front).lemma_filter_push(list.last(), same);
    }
}

proof fn lemma_placed_is_stable(list: Seq<Module>, module: Module, name: Seq<char>)
    ensures
        placed(list, module).filter(|m: Module| m.name == name) == list.push(module).filter(
            |m: Module| m.name == name,
        ),
    decreases list.len(),
{
    let same = |m: Module| m.name == name;
    if list.len() > 0 && !name_ordered(list.last(), module) {
        let front = list.drop_last();
        let last = list.last();
        lemma_placed_is_stable(front, module, name);
        lemma_name_order(last, last, last);
        assert(last.name != module.name);
        assert(list =~= front.push(last));
        placed(front, module).lemma_filter_push(last, same);
        front.lemma_filter_push(module, same);
        front.lemma_filter_push(last, same);
        list.lemma_filter_push(module, same);
        assert(placed(list, module).filter(same) =~= list.push(module).filter(same));
    }
}

/// In the ordered list a name never stands before one that a dictionary, by bytes, puts first.
pub proof fn law_names_in_order(list: Seq<Module>, i: int, j: int)
    requires
        0 <= i <= j < by_name(list).len(),
    ensures
        ({
            let a = vstd::utf8::encode_utf8(by_name(list)[i].name);
            let b = vstd::utf8::encode_utf8(by_name(list)[j].name);
            a.is_prefix_of(b) || exists|k: int|
                0 <= k < a.len() && k < b.len() && a[k] < b[k] && #[trigger] a.take(k) == b.take(k)
        }),
{
    law_by_name_sorts(list);
    let sorted = by_name(list);
    assert(name_ordered(sorted[i], sorted[j]));
    text::law_ordered(
        vstd::utf8::encode_utf8(sorted[i].name),
        vstd::utf8::encode_utf8(sorted[j].name),
    );
}

/// Lists that are alike as multisets have the same members.
pub proof fn lemma_same_members(a: Seq<Module>, b: Seq<Module>, x: Module)
    requires
        a.to_multiset() == b.to_multiset(),
    ensures
        a.contains(x) <==> b.contains(x),
{
    vstd::seq_lib::to_multiset_contains(a, x);
    vstd::seq_lib::to_multiset_contains(b, x);
}

/// The order in which modules were extracted does not show in the result: the same modules of
/// different names give one and the same list.
pub proof fn law_order_of_extraction_is_immaterial(a: Seq<Module>, b: Seq<Module>)
    requires
        distinct_names(a),
        a.to_multiset() == b.to_multiset(),
    ensures
        by_name(a) == by_name(b),
{
    law_by_name_sorts(a);
    law_by_name_sorts(b);
    lemma_sorted_lists_agree(by_name(a), by_name(b));
}

proof fn lemma_sorted_lists_agree(a: Seq<Module>, b: Seq<Module>)
    requires
        distinct_names(a),
        sorted_by_name(a),
        sorted_by_name(b),
        a.to_multiset() == b.to_multiset(),
    ensures
        a == b,
    decreases a.len(),
{
    vstd::seq_lib::to_multiset_len(a);
    vstd::seq_lib::to_multiset_len(b);
    if a.len() == 0 {
        assert(a =~= b);
    } else {
        let n = a.len() - 1;
        assert(a.contains(a[n]));
        assert(b.contains(b[n]));
        lemma_same_members(a, b, a[n]);
        lemma_same_members(a, b, b[n]);
        let j = choose|j: int| 0 <= j < b.len() && b[j] == a[n];
        let i = choose|i: int| 0 <= i < a.len() && a[i] == b[n];
        assert(name_ordered(b[j], b[n]));
        assert(name_ordered(a[i], a[n]));
        lemma_name_order(a[n], b[n], b[n]);
        assert(i == n);
        let (x, y) = (a.drop_last(), b.drop_last());
        assert(a =~= x.push(a[n]));
        assert(b =~= y.push(a[n]));
        vstd::seq_lib::to_multiset_build(x, a[n]);
        vstd::seq_lib::to_multiset_build(y, a[n]);
        assert(x.to_multiset() =~= a.to_multiset().remove(a[n]));
        assert(y.to_multiset() =~= b.to_multiset().remove(a[n]));
        assert forall|k: int, l: int| 0 <= k < l < x.len() implies (#[trigger] x[k]).name != (
        #[trigger] x[l]).name by {
            assert(a[k].name != a[l].name);
        }
        assert forall|k: int, l: int| 0 <= k <= l < x.len() implies name_ordered(
            #[trigger] x[k],
            #[trigger] x[l],
        ) by {
            assert(name_ordered(a[k], a[l]));
        }
        assert forall|k: int, l: int| 0 <= k <= l < y.len() implies name_ordered(
            #[trigger] y[k],
            #[trigger] y[l],
        ) by {
            assert(name_ordered(b[k], b[l]));
        }
        lemma_sorted_lists_agree(x, y);
    }
}

/// A list with one more module at position `at`, where all before `at` may stand before it.
proof fn lemma_placed_is_insert(list: Seq<Module>, module: Module, at: int)
    requires
        0 <= at <= list.len(),
        at == 0 || name_ordered(list[at - 1], module),
        forall|i: int| at <= i < list.len() ==> !name_ordered(#[trigger] list[i], module),
    ensures
        placed(list, module) == list.insert(at, module),
    decreases list.len(),
{
    if at < list.len() {
        lemma_placed_is_insert(list.drop_last(), module, at);
        assert(placed(list, module) =~= list.insert(at, module));
    } else {
        assert(list.push(module) =~= list.insert(at, module));
    }
}

/// Puts a module into an ordered list.
fn place(list: &mut Vec<ModuleInfo>, module: ModuleInfo)
    ensures
        module_views(final(list)@) == placed(module_views(old(list)@), module@),
{
    let ghost start = module_views(list@);
    let mut at: usize = list.len();
    while at > 0 && !text::not_after(
        list[at - 1].name.as_str().as_bytes(),
        module.name.as_str().as_bytes(),
    )
        invariant
            at <= list@.len(),
            start == module_views(list@),
            forall|i: int| at <= i < start.len() ==> !name_ordered(#[trigger] start[i], module@),
        decreases at,
    {
        assert(start[at - 1] == list@[at - 1]@);
        at = at - 1;
    }
    proof {
        if at > 0 {
            assert(start[at - 1] == list@[at - 1]@);
        }
        lemma_placed_is_insert(start, module@, at as int);
    }
    list.insert(at, module);
    assert(module_views(list@) =~= start.insert(at as int, module@));
}

/// Puts modules in the order of their names.
pub fn sort_modules(modules: Vec<ModuleInfo>) -> (sorted: Vec<ModuleInfo>)
    ensures
        module_views(sorted@) == by_name(module_views(modules@)),
{
    let ghost all = module_views(modules@);
    let mut rest: Vec<ModuleInfo> = modules;
    let mut sorted: Vec<ModuleInfo> = Vec::new();
    let ghost mut done: int = 0;
    assert(all.skip(0) =~= all);
    assert(module_views(sorted@) =~= by_name(all.take(0)));
    while rest.len() > 0
        invariant
            0 <= done <= all.len(),
            rest@.len() == all.len() - done,
            module_views(rest@) == all.skip(done),
            module_views(sorted@) == by_name(all.take(done)),
        decreases rest@.len(),
    {
        let ghost before = module_views(rest@);
        assert(before[0] == all[done]);
        assert(all.take(done + 1).drop_last() =~= all.take(done));
        let module: ModuleInfo = rest.remove(0);
        place(&mut sorted, module);
        assert(module_views(rest@) =~= before.skip(1));
        assert(before.skip(1) =~= all.skip(done + 1));
        proof {
            done = done + 1;
        }
    }
    assert(all.take(done) =~= all);
    sorted
}

} // verus!
