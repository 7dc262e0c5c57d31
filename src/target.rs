use crate::configuration::CMakeBuildType;
use itertools::Itertools;
use vstd::prelude::*;

verus! {

/// An entry of a target's `INTERFACE_LINK_LIBRARIES`: a plain library reference, or a
/// dependency that is itself a target, with its own properties and dependencies.
#[derive(Debug)]
pub enum PropertyValue {
    String(String),
    Target(Target),
}

/// A target as CMake describes it: where its binary lies, per configuration, and the
/// interface properties it imposes on its consumers.
#[derive(Debug)]
pub struct Target {
    pub name: String,
    pub location: Option<String>,
    pub location_release: Option<String>,
    pub location_debug: Option<String>,
    pub location_relwithdebinfo: Option<String>,
    pub location_minsizerel: Option<String>,
    pub imported_implib: Option<String>,
    pub imported_implib_release: Option<String>,
    pub imported_implib_debug: Option<String>,
    pub imported_implib_relwithdebinfo: Option<String>,
    pub imported_implib_minsizerel: Option<String>,
    pub interface_compile_definitions: Option<Vec<String>>,
    pub interface_compile_options: Option<Vec<String>>,
    pub interface_include_directories: Option<Vec<String>>,
    pub interface_link_directories: Option<Vec<String>>,
    pub interface_link_libraries: Option<Vec<PropertyValue>>,
    pub interface_link_options: Option<Vec<String>>,
}

impl Default for Target {
    /// A target with an empty name and no properties.
    fn default() -> (r: Target)
        ensures
            r.name@ == Seq::<char>::empty(),
            r.location is None,
            r.location_release is None,
            r.location_debug is None,
            r.location_relwithdebinfo is None,
            r.location_minsizerel is None,
            r.imported_implib is None,
            r.imported_implib_release is None,
            r.imported_implib_debug is None,
            r.imported_implib_relwithdebinfo is None,
            r.imported_implib_minsizerel is None,
            r.interface_compile_definitions is None,
            r.interface_compile_options is None,
            r.interface_include_directories is None,
            r.interface_link_directories is None,
            r.interface_link_libraries is None,
            r.interface_link_options is None,
    {
        Target {
            name: String::new(),
            location: None,
            location_release: None,
            location_debug: None,
            location_relwithdebinfo: None,
            location_minsizerel: None,
            imported_implib: None,
            imported_implib_release: None,
            imported_implib_debug: None,
            imported_implib_relwithdebinfo: None,
            imported_implib_minsizerel: None,
            interface_compile_definitions: None,
            interface_compile_options: None,
            interface_include_directories: None,
            interface_link_directories: None,
            interface_link_libraries: None,
            interface_link_options: None,
        }
    }
}

/// The string-valued interface properties that propagate from a target to its consumers.
#[derive(Debug, Clone, Copy, PartialEq, Eq, Structural)]
pub enum InterfaceProperty {
    CompileDefinitions,
    CompileOptions,
    IncludeDirectories,
    LinkDirectories,
    LinkOptions,
}

/// How a platform finds the file to link against: through the binary's location, or, on
/// Windows, through its import library.
#[derive(Debug, Clone, Copy, PartialEq, Eq, Structural)]
pub enum Platform {
    Unix,
    Windows,
}

pub open spec fn texts(v: Seq<String>) -> Seq<Seq<char>> {
    v.map_values(|s: String| s@)
}

pub open spec fn opt_text(s: Option<String>) -> Option<Seq<char>> {
    match s {
        Some(t) => Some(t@),
        None => None,
    }
}

/// An absent list counts as empty.
pub open spec fn list_texts(v: Option<Vec<String>>) -> Seq<Seq<char>> {
    match v {
        Some(l) => texts(l@),
        None => Seq::empty(),
    }
}

pub open spec fn opt_seq(o: Option<Seq<char>>) -> Seq<Seq<char>> {
    match o {
        Some(s) => seq![s],
        None => Seq::empty(),
    }
}

pub open spec fn links(t: Target) -> Seq<PropertyValue> {
    match t.interface_link_libraries {
        Some(v) => v@,
        None => Seq::empty(),
    }
}

pub open spec fn own_property(t: Target, p: InterfaceProperty) -> Seq<Seq<char>> {
    list_texts(
        match p {
            InterfaceProperty::CompileDefinitions => t.interface_compile_definitions,
            InterfaceProperty::CompileOptions => t.interface_compile_options,
            InterfaceProperty::IncludeDirectories => t.interface_include_directories,
            InterfaceProperty::LinkDirectories => t.interface_link_directories,
            InterfaceProperty::LinkOptions => t.interface_link_options,
        },
    )
}

proof fn lemma_link_decreases(t: Target, i: int)
    requires
        0 <= i < links(t).len(),
    ensures
        links(t)[i] matches PropertyValue::Target(d) ==> decreases_to!(t => d),
{
    broadcast use vstd::std_specs::vec::axiom_vec_decreases_to_view;

    if let Some(v) = t.interface_link_libraries {
        assert(decreases_to!(v => v@));
        assert(decreases_to!(v@ => v@[i]));
    }
}

/// What the first `i` link entries of `t` contribute to property `p`: for each entry that
/// is a target, its own value followed by what its entries contribute, depth first.
pub open spec fn gathered(t: Target, i: int, p: InterfaceProperty) -> Seq<Seq<char>>
    decreases t, i,
    via gathered_decreases
{
    if i <= 0 || i > links(t).len() {
        Seq::empty()
    } else {
        gathered(t, i - 1, p) + match links(t)[i - 1] {
            PropertyValue::String(_) => Seq::empty(),
            PropertyValue::Target(d) => own_property(d, p) + gathered(
                d,
                links(d).len() as int,
                p,
            ),
        }
    }
}

#[via_fn]
proof fn gathered_decreases(t: Target, i: int, p: InterfaceProperty) {
    if 0 < i <= links(t).len() {
        lemma_link_decreases(t, i - 1);
    }
}

/// The value of property `p` collected over `t` and everything it links, transitively:
/// the target's own value first, then each dependency's in declared order, depth first.
pub open spec fn collected(t: Target, p: InterfaceProperty) -> Seq<Seq<char>> {
    own_property(t, p) + gathered(t, links(t).len() as int, p)
}

/// The location of `t` in configuration `c`: the configuration's own entry if there is one,
/// else the general one. Windows reads the import library entries instead.
pub open spec fn location_for(t: Target, c: CMakeBuildType, platform: Platform) -> Option<
    Seq<char>,
> {
    let (specific, general) = match platform {
        Platform::Windows => (
            match c {
                CMakeBuildType::Debug => t.imported_implib_debug,
                CMakeBuildType::Release => t.imported_implib_release,
                CMakeBuildType::RelWithDebInfo => t.imported_implib_relwithdebinfo,
                CMakeBuildType::MinSizeRel => t.imported_implib_minsizerel,
            },
            t.imported_implib,
        ),
        Platform::Unix => (
            match c {
                CMakeBuildType::Debug => t.location_debug,
                CMakeBuildType::Release => t.location_release,
                CMakeBuildType::RelWithDebInfo => t.location_relwithdebinfo,
                CMakeBuildType::MinSizeRel => t.location_minsizerel,
            },
            t.location,
        ),
    };
    match specific {
        Some(s) => Some(s@),
        None => opt_text(general),
    }
}

/// What the first `i` link entries of `t` contribute to the link line: a plain entry
/// itself; a target its location, then what its own entries contribute.
pub open spec fn linked(t: Target, i: int, c: CMakeBuildType, platform: Platform) -> Seq<
    Seq<char>,
>
    decreases t, i,
    via linked_decreases
{
    if i <= 0 || i > links(t).len() {
        Seq::empty()
    } else {
        linked(t, i - 1, c, platform) + match links(t)[i - 1] {
            PropertyValue::String(s) => seq![s@],
            PropertyValue::Target(d) => opt_seq(location_for(d, c, platform)) + linked(
                d,
                links(d).len() as int,
                c,
                platform,
            ),
        }
    }
}

#[via_fn]
proof fn linked_decreases(t: Target, i: int, c: CMakeBuildType, platform: Platform) {
    if 0 < i <= links(t).len() {
        lemma_link_decreases(t, i - 1);
    }
}

/// Everything that linking against `t` puts on the link line, before sorting: its own
/// location, then the flattening of its link entries.
pub open spec fn link_closure(t: Target, c: CMakeBuildType, platform: Platform) -> Seq<Seq<char>> {
    opt_seq(location_for(t, c, platform)) + linked(t, links(t).len() as int, c, platform)
}

/// Copies the strings of an optional list onto the end of `out`.
fn push_all(out: &mut Vec<String>, list: &Option<Vec<String>>)
    ensures
        texts(final(out)@) == texts(old(out)@) + list_texts(*list),
{
    if let Some(v) = list {
        let mut i: usize = 0;
        while i < v.len()
            invariant
                i <= v.len(),
                texts(out@) == texts(old(out)@) + texts(v@.take(i as int)),
            decreases v.len() - i,
        {
            let ghost prev = out@;
            out.push(v[i].clone());
            assert(texts(out@) =~= texts(prev).push(v@[i as int]@));
            assert(texts(v@.take(i + 1)) =~= texts(v@.take(i as int)).push(v@[i as int]@));
            assert(texts(out@) =~= texts(old(out)@) + texts(v@.take(i + 1)));
            i = i + 1;
        }
        assert(v@.take(v.len() as int) =~= v@);
    } else {
        assert(texts(out@) =~= texts(old(out)@) + Seq::<Seq<char>>::empty());
    }
}

impl Target {
    /// The target's own value of property `p`.
    pub fn property(&self, p: InterfaceProperty) -> (r: &Option<Vec<String>>)
        ensures
            list_texts(*r) == own_property(*self, p),
    {
        match p {
            InterfaceProperty::CompileDefinitions => &self.interface_compile_definitions,
            InterfaceProperty::CompileOptions => &self.interface_compile_options,
            InterfaceProperty::IncludeDirectories => &self.interface_include_directories,
            InterfaceProperty::LinkDirectories => &self.interface_link_directories,
            InterfaceProperty::LinkOptions => &self.interface_link_options,
        }
    }
}

/// Collects property `p` from `target` and, recursively, from every target it links:
/// the target's own value first, then each dependency's, in declared order, depth first.
/// Order and repetitions are kept.
pub fn collect_from_targets(target: &Target, p: InterfaceProperty) -> (r: Vec<String>)
    ensures
        texts(r@) == collected(*target, p),
    decreases target,
{
    let mut r: Vec<String> = Vec::new();
    push_all(&mut r, target.property(p));
    assert(texts(r@) =~= own_property(*target, p));
    if let Some(entries) = &target.interface_link_libraries {
        let mut i: usize = 0;
        while i < entries.len()
            invariant
                i <= entries.len(),
                links(*target) == entries@,
                texts(r@) == own_property(*target, p) + gathered(*target, i as int, p),
            decreases entries.len() - i,
        {
            proof {
                lemma_link_decreases(*target, i as int);
            }
            match &entries[i] {
                PropertyValue::String(_) => {
                    assert(gathered(*target, i + 1, p) =~= gathered(*target, i as int, p));
                },
                PropertyValue::Target(d) => {
                    let mut sub = collect_from_targets(d, p);
                    let ghost prev = r@;
                    let ghost added = sub@;
                    r.append(&mut sub);
                    assert(texts(r@) =~= texts(prev) + texts(added));
                    assert(links(*target)[i as int] == PropertyValue::Target(*d));
                    assert(gathered(*target, i + 1, p) == gathered(*target, i as int, p) + collected(*d, p));
                    assert(texts(r@) =~= own_property(*target, p) + gathered(*target, i + 1, p));
                },
            }
            i = i + 1;
        }
    } else {
        assert(texts(r@) =~= own_property(*target, p) + gathered(*target, 0, p));
    }
    r
}

/// Strict lexicographic order on character sequences, character by code point. This is
/// `String`'s order: bytewise, and bytewise order on UTF-8 is code point order.
pub open spec fn text_lt(a: Seq<char>, b: Seq<char>) -> bool
    decreases a.len(),
{
    if a.len() == 0 {
        b.len() > 0
    } else if b.len() == 0 {
        false
    } else if a[0] != b[0] {
        (a[0] as u32) < (b[0] as u32)
    } else {
        text_lt(a.drop_first(), b.drop_first())
    }
}

pub open spec fn text_le(a: Seq<char>, b: Seq<char>) -> bool {
    a == b || text_lt(a, b)
}

pub open spec fn is_sorted(s: Seq<Seq<char>>) -> bool {
    forall|i: int, j: int| 0 <= i < j < s.len() ==> text_le(#[trigger] s[i], #[trigger] s[j])
}

pub open spec fn strictly_sorted(s: Seq<Seq<char>>) -> bool {
    forall|i: int, j: int| 0 <= i < j < s.len() ==> text_lt(#[trigger] s[i], #[trigger] s[j])
}

/// `s` without the items that equal the item before them.
pub open spec fn dedup_adjacent(s: Seq<Seq<char>>) -> Seq<Seq<char>>
    decreases s.len(),
{
    if s.len() <= 1 {
        s
    } else {
        let r = dedup_adjacent(s.drop_last());
        if s.last() == s[s.len() - 2] {
            r
        } else {
            r.push(s.last())
        }
    }
}

/// `r` lists every string of `s` exactly once, in ascending order.
pub open spec fn sorted_unique_of(r: Seq<Seq<char>>, s: Seq<Seq<char>>) -> bool {
    strictly_sorted(r) && r.to_set() == s.to_set()
}

proof fn lemma_lt_asymmetric(a: Seq<char>, b: Seq<char>)
    ensures
        !(text_lt(a, b) && text_lt(b, a)),
    decreases a.len(),
{
    if a.len() > 0 && b.len() > 0 && a[0] == b[0] {
        lemma_lt_asymmetric(a.drop_first(), b.drop_first());
    }
}

proof fn lemma_lt_irreflexive(a: Seq<char>)
    ensures
        !text_lt(a, a),
{
    lemma_lt_asymmetric(a, a);
}

proof fn lemma_dedup_adjacent(s: Seq<Seq<char>>)
    requires
        is_sorted(s),
    ensures
        dedup_adjacent(s).to_set() == s.to_set(),
        strictly_sorted(dedup_adjacent(s)),
        s.len() > 0 ==> dedup_adjacent(s).len() > 0 && dedup_adjacent(s).last() == s.last(),
    decreases s.len(),
{
    if s.len() <= 1 {
        if s.len() == 1 {
            lemma_lt_irreflexive(s[0]);
        }
    } else {
        let t = s.drop_last();
        assert(is_sorted(t)) by {
            assert forall|i: int, j: int| 0 <= i < j < t.len() implies text_le(
                #[trigger] t[i],
                #[trigger] t[j],
            ) by {
                assert(t[i] == s[i] && t[j] == s[j]);
            };
        };
        lemma_dedup_adjacent(t);
        let r = dedup_adjacent(t);
        assert(s =~= t.push(s.last()));
        assert(s.to_set() =~= t.to_set().insert(s.last())) by {
            assert forall|x| s.to_set().contains(x) <==> t.to_set().insert(s.last()).contains(x) by {
                if s.to_set().contains(x) {
                    let k = choose|k: int| 0 <= k < s.len() && s[k] == x;
                    if k < t.len() {
                        assert(t[k] == x);
                    }
                }
                if t.to_set().contains(x) {
                    let k = choose|k: int| 0 <= k < t.len() && t[k] == x;
                    assert(s[k] == x);
                }
                if x == s.last() {
                    assert(s[s.len() - 1] == x);
                }
            };
        };
        if s.last() == s[s.len() - 2] {
            assert(t.to_set().contains(t[t.len() - 1]));
            assert(s.to_set() =~= t.to_set());
        } else {
            let last = s.last();
            let u = r.push(last);
            assert(u.to_set() =~= r.to_set().insert(last)) by {
                assert forall|x| u.to_set().contains(x) <==> r.to_set().insert(last).contains(x) by {
                    if u.to_set().contains(x) {
                        let k = choose|k: int| 0 <= k < u.len() && u[k] == x;
                        if k < r.len() {
                            assert(r[k] == x);
                        }
                    }
                    if r.to_set().contains(x) {
                        let k = choose|k: int| 0 <= k < r.len() && r[k] == x;
                        assert(u[k] == x);
                    }
                    if x == last {
                        assert(u[u.len() - 1] == x);
                    }
                };
            };
            assert forall|i: int, j: int| 0 <= i < j < u.len() implies text_lt(
                #[trigger] u[i],
                #[trigger] u[j],
            ) by {
                if j < r.len() {
                    assert(u[i] == r[i] && u[j] == r[j]);
                } else {
                    let x = r[i];
                    assert(r.to_set().contains(x));
                    assert(t.to_set().contains(x));
                    let k = choose|k: int| 0 <= k < t.len() && t[k] == x;
                    assert(s[k] == x);
                    let m = s.len() - 2;
                    assert(text_le(s[m], last)) by {
                        assert(text_le(s[m], s[s.len() - 1]));
                    };
                    if x == last {
                        if k < m {
                            assert(text_le(s[k], s[m]));
                        }
                        lemma_lt_asymmetric(s[m], last);
                    }
                    assert(text_le(s[k], s[s.len() - 1]));
                }
            };
        }
    }
}

proof fn lemma_sorted_unique_equal(a: Seq<Seq<char>>, b: Seq<Seq<char>>)
    requires
        strictly_sorted(a),
        strictly_sorted(b),
        a.to_set() == b.to_set(),
    ensures
        a == b,
    decreases a.len(),
{
    if a.len() == 0 {
        if b.len() > 0 {
            assert(b.to_set().contains(b[0]));
        }
        assert(a =~= b);
    } else {
        assert(a.to_set().contains(a[0]));
        assert(b.len() > 0);
        assert(b.to_set().contains(b[0]));
        let k = choose|k: int| 0 <= k < b.len() && b[k] == a[0];
        let m = choose|m: int| 0 <= m < a.len() && a[m] == b[0];
        if k > 0 && m > 0 {
            assert(text_lt(b[0], b[k]));
            assert(text_lt(a[0], a[m]));
            lemma_lt_asymmetric(a[0], b[0]);
        } else if k > 0 {
            assert(text_lt(b[0], b[k]));
            lemma_lt_irreflexive(a[0]);
        } else if m > 0 {
            assert(text_lt(a[0], a[m]));
            lemma_lt_irreflexive(b[0]);
        }
        assert(a[0] == b[0]);
        let (ta, tb) = (a.drop_first(), b.drop_first());
        assert(strictly_sorted(ta)) by {
            assert forall|i: int, j: int| 0 <= i < j < ta.len() implies text_lt(
                #[trigger] ta[i],
                #[trigger] ta[j],
            ) by {
                assert(ta[i] == a[i + 1] && ta[j] == a[j + 1]);
            };
        };
        assert(strictly_sorted(tb)) by {
            assert forall|i: int, j: int| 0 <= i < j < tb.len() implies text_lt(
                #[trigger] tb[i],
                #[trigger] tb[j],
            ) by {
                assert(tb[i] == b[i + 1] && tb[j] == b[j + 1]);
            };
        };
        assert(ta.to_set() =~= tb.to_set()) by {
            assert forall|x| ta.to_set().contains(x) implies tb.to_set().contains(x) by {
                let i = choose|i: int| 0 <= i < ta.len() && ta[i] == x;
                assert(a[i + 1] == x);
                assert(a.to_set().contains(x));
                let j = choose|j: int| 0 <= j < b.len() && b[j] == x;
                if j == 0 {
                    assert(text_lt(a[0], a[i + 1]));
                    lemma_lt_irreflexive(a[0]);
                }
                assert(tb[j - 1] == x);
            };
            assert forall|x| tb.to_set().contains(x) implies ta.to_set().contains(x) by {
                let i = choose|i: int| 0 <= i < tb.len() && tb[i] == x;
                assert(b[i + 1] == x);
                assert(b.to_set().contains(x));
                let j = choose|j: int| 0 <= j < a.len() && a[j] == x;
                if j == 0 {
                    assert(text_lt(b[0], b[i + 1]));
                    lemma_lt_irreflexive(b[0]);
                }
                assert(ta[j - 1] == x);
            };
        };
        lemma_sorted_unique_equal(ta, tb);
        assert(a =~= b) by {
            assert forall|i: int| 0 <= i < a.len() implies a[i] == b[i] by {
                if i > 0 {
                    assert(a[i] == ta[i - 1] && b[i] == tb[i - 1]);
                }
            };
        };
    }
}

/// Relies on `Itertools::sorted`, which collects the items and sorts them with `slice::sort`
/// under `String`'s order.
#[verifier::external_body]
fn sorted(v: Vec<String>) -> (r: Vec<String>)
    ensures
        texts(r@).to_multiset() == texts(v@).to_multiset(),
        is_sorted(texts(r@)),
{
    v.into_iter().sorted().collect()
}

/// Relies on `Itertools::dedup`, which drops every item equal to the item kept before it.
#[verifier::external_body]
fn dedup(v: Vec<String>) -> (r: Vec<String>)
    ensures
        texts(r@) == dedup_adjacent(texts(v@)),
{
    v.into_iter().dedup().collect()
}

/// Sorts `v` and drops repeated strings.
pub fn sorted_unique(v: Vec<String>) -> (r: Vec<String>)
    ensures
        sorted_unique_of(texts(r@), texts(v@)),
{
    let s = sorted(v);
    let ghost before = texts(v@);
    let ghost mid = texts(s@);
    let r = dedup(s);
    proof {
        lemma_dedup_adjacent(mid);
        before.to_multiset_ensures();
        mid.to_multiset_ensures();
        assert forall|x| mid.to_set().contains(x) <==> before.to_set().contains(x) by {
            assert(mid.contains(x) <==> mid.to_multiset().count(x) > 0);
            assert(before.contains(x) <==> before.to_multiset().count(x) > 0);
        };
        assert(mid.to_set() =~= before.to_set());
    }
    r
}

/// Like `collect_from_targets`, but sorted and without repetitions: for the properties whose
/// order does not matter to the consumer.
pub fn collect_from_targets_unique(target: &Target, p: InterfaceProperty) -> (r: Vec<String>)
    ensures
        sorted_unique_of(texts(r@), collected(*target, p)),
{
    sorted_unique(collect_from_targets(target, p))
}

/// The resolved build requirements of one target in one configuration.
#[derive(Debug, Clone)]
pub struct CMakeTarget {
    /// Name of the target.
    pub name: String,
    /// The binary, or on Windows the import library, to link against.
    pub location: Option<String>,
    /// Preprocessor definitions of the target and its dependencies, sorted, each once.
    pub compile_definitions: Vec<String>,
    /// Compiler options of the target and its dependencies, in order.
    pub compile_options: Vec<String>,
    /// Include directories of the target and its dependencies, sorted, each once.
    pub include_directories: Vec<String>,
    /// Link directories of the target and its dependencies, sorted, each once.
    pub link_directories: Vec<String>,
    /// The target's location and the libraries of its link closure, sorted, each once.
    /// Some linkers depend on the order of libraries; this order is not that one.
    pub link_libraries: Vec<String>,
    /// Linker options of the target and its dependencies, in order.
    pub link_options: Vec<String>,
}

impl Default for CMakeTarget {
    fn default() -> (r: CMakeTarget)
        ensures
            r.name@ == Seq::<char>::empty(),
            r.location is None,
            r.compile_definitions@.len() == 0,
            r.compile_options@.len() == 0,
            r.include_directories@.len() == 0,
            r.link_directories@.len() == 0,
            r.link_libraries@.len() == 0,
            r.link_options@.len() == 0,
    {
        CMakeTarget {
            name: String::new(),
            location: None,
            compile_definitions: Vec::new(),
            compile_options: Vec::new(),
            include_directories: Vec::new(),
            link_directories: Vec::new(),
            link_libraries: Vec::new(),
            link_options: Vec::new(),
        }
    }
}

/// `r` is what resolving `t` in configuration `c` on `platform` yields.
pub open spec fn resolves(t: Target, c: CMakeBuildType, platform: Platform, r: CMakeTarget) -> bool {
    &&& r.name@ == t.name@
    &&& opt_text(r.location) == location_for(t, c, platform)
    &&& sorted_unique_of(
        texts(r.compile_definitions@),
        collected(t, InterfaceProperty::CompileDefinitions),
    )
    &&& texts(r.compile_options@) == collected(t, InterfaceProperty::CompileOptions)
    &&& sorted_unique_of(
        texts(r.include_directories@),
        collected(t, InterfaceProperty::IncludeDirectories),
    )
    &&& sorted_unique_of(
        texts(r.link_directories@),
        collected(t, InterfaceProperty::LinkDirectories),
    )
    &&& texts(r.link_options@) == collected(t, InterfaceProperty::LinkOptions)
    &&& sorted_unique_of(texts(r.link_libraries@), link_closure(t, c, platform))
}

/// The location of `target` in configuration `build_type`: the configuration's own entry,
/// else the general one, else none. On Windows the import library entries are read.
pub fn location_for_build_type(build_type: CMakeBuildType, target: &Target, platform: Platform) -> (r:
    Option<String>)
    ensures
        opt_text(r) == location_for(*target, build_type, platform),
{
    let (specific, general) = match platform {
        Platform::Windows => (
            match build_type {
                CMakeBuildType::Debug => &target.imported_implib_debug,
                CMakeBuildType::Release => &target.imported_implib_release,
                CMakeBuildType::RelWithDebInfo => &target.imported_implib_relwithdebinfo,
                CMakeBuildType::MinSizeRel => &target.imported_implib_minsizerel,
            },
            &target.imported_implib,
        ),
        Platform::Unix => (
            match build_type {
                CMakeBuildType::Debug => &target.location_debug,
                CMakeBuildType::Release => &target.location_release,
                CMakeBuildType::RelWithDebInfo => &target.location_relwithdebinfo,
                CMakeBuildType::MinSizeRel => &target.location_minsizerel,
            },
            &target.location,
        ),
    };
    match specific {
        Some(s) => Some(s.clone()),
        None => match general {
            Some(s) => Some(s.clone()),
            None => None,
        },
    }
}

/// Flattens the link entries of `target`: a plain entry gives itself, a target entry its
/// location in `build_type`, then the flattening of its own entries.
pub fn linked_libraries(target: &Target, build_type: CMakeBuildType, platform: Platform) -> (r: Vec<
    String,
>)
    ensures
        texts(r@) == linked(*target, links(*target).len() as int, build_type, platform),
    decreases target,
{
    let mut r: Vec<String> = Vec::new();
    if let Some(entries) = &target.interface_link_libraries {
        let mut i: usize = 0;
        assert(texts(r@) =~= linked(*target, 0, build_type, platform));
        while i < entries.len()
            invariant
                i <= entries.len(),
                links(*target) == entries@,
                texts(r@) == linked(*target, i as int, build_type, platform),
            decreases entries.len() - i,
        {
            proof {
                lemma_link_decreases(*target, i as int);
            }
            let ghost prev = r@;
            match &entries[i] {
                PropertyValue::String(s) => {
                    r.push(s.clone());
                    assert(texts(r@) =~= texts(prev).push(s@));
                    assert(texts(r@) =~= linked(*target, i + 1, build_type, platform));
                },
                PropertyValue::Target(d) => {
                    if let Some(l) = location_for_build_type(build_type, d, platform) {
                        r.push(l);
                    }
                    let ghost mid = r@;
                    assert(texts(mid) =~= texts(prev) + opt_seq(location_for(*d, build_type, platform)));
                    let mut sub = linked_libraries(d, build_type, platform);
                    let ghost added = sub@;
                    r.append(&mut sub);
                    assert(texts(r@) =~= texts(mid) + texts(added));
                    assert(links(*target)[i as int] == PropertyValue::Target(*d));
                    assert(texts(r@) =~= linked(*target, i + 1, build_type, platform));
                },
            }
            i = i + 1;
        }
    } else {
        assert(texts(r@) =~= linked(*target, 0, build_type, platform));
    }
    r
}

impl Target {
    /// Resolves the target in configuration `build_type`: its location there, each interface
    /// property collected over its link closure (compile and link options in order, the
    /// others sorted and without repetitions), and its link libraries, sorted and each once.
    pub fn into_cmake_target(self, build_type: CMakeBuildType, platform: Platform) -> (r: CMakeTarget)
        ensures
            resolves(self, build_type, platform, r),
    {
        let location = location_for_build_type(build_type, &self, platform);
        let mut libraries: Vec<String> = Vec::new();
        if let Some(l) = &location {
            libraries.push(l.clone());
        }
        let ghost first = libraries@;
        assert(texts(first) =~= opt_seq(location_for(self, build_type, platform)));
        let mut rest = linked_libraries(&self, build_type, platform);
        let ghost added = rest@;
        libraries.append(&mut rest);
        assert(texts(libraries@) =~= texts(first) + texts(added));
        let compile_definitions = collect_from_targets_unique(
            &self,
            InterfaceProperty::CompileDefinitions,
        );
        let compile_options = collect_from_targets(&self, InterfaceProperty::CompileOptions);
        let include_directories = collect_from_targets_unique(
            &self,
            InterfaceProperty::IncludeDirectories,
        );
        let link_directories = collect_from_targets_unique(
            &self,
            InterfaceProperty::LinkDirectories,
        );
        let link_options = collect_from_targets(&self, InterfaceProperty::LinkOptions);
        let link_libraries = sorted_unique(libraries);
        CMakeTarget {
            name: self.name,
            location,
            compile_definitions,
            compile_options,
            include_directories,
            link_directories,
            link_libraries,
            link_options,
        }
    }
}

/// Resolution depends on nothing but the target graph, the configuration and the platform:
/// any two results of resolving the same graph in the same configuration are equal.
pub proof fn lemma_resolution_is_deterministic(
    t: Target,
    c: CMakeBuildType,
    platform: Platform,
    r1: CMakeTarget,
    r2: CMakeTarget,
)
    requires
        resolves(t, c, platform, r1),
        resolves(t, c, platform, r2),
    ensures
        r1.name@ == r2.name@,
        opt_text(r1.location) == opt_text(r2.location),
        texts(r1.compile_definitions@) == texts(r2.compile_definitions@),
        texts(r1.compile_options@) == texts(r2.compile_options@),
        texts(r1.include_directories@) == texts(r2.include_directories@),
        texts(r1.link_directories@) == texts(r2.link_directories@),
        texts(r1.link_libraries@) == texts(r2.link_libraries@),
        texts(r1.link_options@) == texts(r2.link_options@),
{
    lemma_sorted_unique_equal(texts(r1.compile_definitions@), texts(r2.compile_definitions@));
    lemma_sorted_unique_equal(texts(r1.include_directories@), texts(r2.include_directories@));
    lemma_sorted_unique_equal(texts(r1.link_directories@), texts(r2.link_directories@));
    lemma_sorted_unique_equal(texts(r1.link_libraries@), texts(r2.link_libraries@));
}

} // verus!
