//! What configuring a repository with CMake comes to.

use crate::cmake_configure::{
    self, CMakeConfigureFingerprint, CMakeConfigureInfo, CMakeConfigureOutput,
    CMakeDependencyInfo, ConfigurePlan, DependencyView, PreparedView, PresetError, PresetFault,
};
use crate::cmake_presets::{
    self, CMakePresets, CacheValueView, ConfigurePreset, PresetView, VariablesView,
};
use crate::hash;
use crate::maps;
use crate::paths::{self, PathContext};
use crate::text;
use crate::text_laws;
use vstd::prelude::*;

verus! {

/// The item stands in a list whose items semicolons part, wherever in it.
pub open spec fn is_listed(list: Seq<char>, item: Seq<char>) -> bool {
    &&& text_laws::lacks(item, ';')
    &&& exists|before: Seq<char>, after: Seq<char>|
        list == #[trigger] (before + item + after) && (before.len() == 0 || before.last() == ';')
            && (after.len() == 0 || after[0] == ';')
}

proof fn lemma_listed(list: Seq<char>, item: Seq<char>)
    ensures
        is_listed(list, item) <==> text::split_of(list, ';').contains(item),
{
    let pieces = text::split_of(list, ';');
    let sep = seq![';'];
    text_laws::law_splitting_is_undone_by_joining(list, ';');
    if pieces.contains(item) {
        let k = pieces.index_of(item);
        let front = pieces.take(k);
        let back = pieces.skip(k + 1);
        text_laws::law_joining(front, seq![item], sep, item);
        text_laws::law_joining(front + seq![item], back, sep, item);
        text_laws::law_joining(seq![item], back, sep, item);
        assert(pieces =~= front + seq![item] + back);
        let before = if k == 0 {
            Seq::empty()
        } else {
            text::join_of(front, sep) + sep
        };
        let after = if back.len() == 0 {
            Seq::empty()
        } else {
            sep + text::join_of(back, sep)
        };
        if k == 0 {
            assert(front + seq![item] =~= seq![item]);
        }
        if back.len() == 0 {
            assert(front + seq![item] + back =~= front + seq![item]);
        }
        assert(list =~= before + item + after);
    }
    if is_listed(list, item) {
        let (before, after) = choose|before: Seq<char>, after: Seq<char>|
            list == #[trigger] (before + item + after) && (before.len() == 0 || before.last()
                == ';') && (after.len() == 0 || after[0] == ';');
        let left = before.drop_last();
        let right = after.skip(1);
        let front = if before.len() == 0 {
            Seq::<Seq<char>>::empty()
        } else {
            text::split_of(left, ';')
        };
        let back = if after.len() == 0 {
            Seq::<Seq<char>>::empty()
        } else {
            text::split_of(right, ';')
        };
        text_laws::law_splitting_is_undone_by_joining(left, ';');
        text_laws::law_splitting_is_undone_by_joining(right, ';');
        let all = front + seq![item] + back;
        assert forall|i: int| 0 <= i < all.len() implies text_laws::lacks(#[trigger] all[i], ';') by {
            if i < front.len() {
                assert(all[i] == front[i]);
            } else if i > front.len() {
                assert(all[i] == back[i - front.len() - 1]);
            }
        }
        text_laws::law_joining(front, seq![item], sep, item);
        text_laws::law_joining(front + seq![item], back, sep, item);
        if before.len() == 0 {
            assert(front + seq![item] =~= seq![item]);
            text_laws::law_joining(seq![item], back, sep, item);
        } else {
            assert(before =~= left + sep);
        }
        if after.len() == 0 {
            assert(all =~= front + seq![item]);
        } else {
            assert(after =~= sep + right);
        }
        assert(text::join_of(all, sep) =~= list);
        text_laws::law_joining_is_undone_by_splitting(all, ';');
        assert(all[front.len() as int] == item);
    }
}

/// The preset has a generator with the keyword in its name, a binary directory and an install
/// prefix, and is for the configuration: that is one of its configuration types, or its build
/// type.
pub open spec fn fits(preset: PresetView, build_config: Seq<char>, keyword: Seq<char>) -> bool {
    &&& preset.generator is Some
    &&& exists|before: Seq<char>, after: Seq<char>|
        preset.generator->0 == #[trigger] (before + keyword + after)
    &&& preset.binary_dir is Some
    &&& preset.variables is Some
    &&& preset.variables->0.contains_key("CMAKE_INSTALL_PREFIX"@)
    &&& {
        ||| preset.variables->0.contains_key("CMAKE_CONFIGURATION_TYPES"@) && (
        preset.variables->0["CMAKE_CONFIGURATION_TYPES"@] matches CacheValueView::Text(types)
            && is_listed(types, build_config))
        ||| preset.variables->0.contains_key("CMAKE_BUILD_TYPE"@)
            && preset.variables->0["CMAKE_BUILD_TYPE"@] == CacheValueView::Text(build_config)
    }
}

proof fn lemma_fits(preset: PresetView, build_config: Seq<char>, keyword: Seq<char>)
    ensures
        fits(preset, build_config, keyword) <==> cmake_configure::suits(
            preset,
            build_config,
            keyword,
        ),
{
    if preset.generator is Some {
        text_laws::law_containing(preset.generator->0, keyword);
    }
    if preset.variables is Some {
        let vars = preset.variables->0;
        if let Some(types) = cmake_configure::text_variable(vars, "CMAKE_CONFIGURATION_TYPES"@) {
            lemma_listed(types, build_config);
        }
    }
}

/// A preset suits every configuration that is among its configuration types, whatever the place,
/// or is its build type, provided that it has a matching generator, a binary directory and an
/// install prefix; and it suits no other.
pub proof fn law_presets_suit_their_configurations(
    preset: &ConfigurePreset,
    build_config: &str,
    keyword: &str,
    r: bool,
)
    requires
        call_ensures(
            cmake_configure::check_preset_conditions,
            (preset, build_config, keyword),
            r,
        ),
    ensures
        r == fits(preset@, build_config@, keyword@),
{
    lemma_fits(preset@, build_config@, keyword@);
}

proof fn lemma_first_fitting(
    presets: Seq<PresetView>,
    build_config: Seq<char>,
    keyword: Seq<char>,
    n: int,
)
    requires
        0 <= n <= presets.len(),
    ensures
        match cmake_configure::first_suitable(presets, build_config, keyword, n) {
            Some(i) => 0 <= i < n && fits(presets[i], build_config, keyword) && forall|j: int|
                0 <= j < i ==> !fits(#[trigger] presets[j], build_config, keyword),
            None => forall|j: int|
                0 <= j < n ==> !fits(#[trigger] presets[j], build_config, keyword),
        },
    decreases n,
{
    if n > 0 {
        lemma_first_fitting(presets, build_config, keyword, n - 1);
        lemma_fits(presets[n - 1], build_config, keyword);
    }
}

/// The preset that is built on is the preferred one where that fits, otherwise the first that
/// does.
pub open spec fn is_base(
    presets: Seq<PresetView>,
    build_config: Seq<char>,
    keyword: Seq<char>,
    preferred: Option<int>,
    i: int,
) -> bool {
    &&& 0 <= i < presets.len()
    &&& fits(presets[i], build_config, keyword)
    &&& if preferred is Some && 0 <= preferred->0 < presets.len() && fits(
        presets[preferred->0],
        build_config,
        keyword,
    ) {
        i == preferred->0
    } else {
        forall|j: int| 0 <= j < i ==> !fits(#[trigger] presets[j], build_config, keyword)
    }
}

proof fn lemma_base(
    presets: Seq<PresetView>,
    build_config: Seq<char>,
    keyword: Seq<char>,
    preferred: Option<int>,
)
    ensures
        match cmake_configure::base_preset(presets, build_config, keyword, preferred) {
            Some(i) => is_base(presets, build_config, keyword, preferred, i),
            None => forall|j: int|
                0 <= j < presets.len() ==> !fits(#[trigger] presets[j], build_config, keyword),
        },
{
    lemma_first_fitting(presets, build_config, keyword, presets.len() as int);
    if let Some(i) = preferred {
        if 0 <= i < presets.len() {
            lemma_fits(presets[i], build_config, keyword);
        }
    }
}

/// A preset to build on is found exactly where one fits: the preferred one if it does, otherwise
/// the first.
pub proof fn law_fitting_presets_are_found(
    presets: &Vec<ConfigurePreset>,
    build_config: &str,
    keyword: &str,
    preferred: Option<usize>,
    r: Result<usize, PresetError>,
)
    requires
        call_ensures(
            cmake_configure::find_based_preset,
            (presets, build_config, keyword, preferred),
            r,
        ),
    ensures
        match r {
            Ok(i) => is_base(
                cmake_presets::preset_views(presets@),
                build_config@,
                keyword@,
                match preferred {
                    Some(i) => Some(i as int),
                    None => None,
                },
                i as int,
            ),
            Err(_) => forall|j: int|
                0 <= j < presets@.len() ==> !fits(
                    (#[trigger] presets@[j])@,
                    build_config@,
                    keyword@,
                ),
        },
{
    let views = cmake_presets::preset_views(presets@);
    lemma_base(
        views,
        build_config@,
        keyword@,
        match preferred {
            Some(i) => Some(i as int),
            None => None,
        },
    );
    if r is Err {
        assert forall|j: int| 0 <= j < presets@.len() implies !fits(
            (#[trigger] presets@[j])@,
            build_config@,
            keyword@,
        ) by {
            assert(!fits(views[j], build_config@, keyword@));
        }
    }
}

/// CMake is left alone exactly where nothing is demanded and everything is as it was last time;
/// it starts afresh on demand, the first time, and where the packages, the generator or the
/// toolchain changed.
pub proof fn law_changes_are_configured(
    need_cmake: bool,
    need_fresh: bool,
    last: &Option<CMakeConfigureFingerprint>,
    now: &CMakeConfigureFingerprint,
    r: (bool, bool),
)
    requires
        call_ensures(cmake_configure::decide_configure, (need_cmake, need_fresh, last, now), r),
    ensures
        !r.0 <==> !need_cmake && !need_fresh && *last == Some(*now),
        !r.1 <==> !need_fresh && (*last matches Some(before) && before.conan_toolchain_hash
            == now.conan_toolchain_hash && before.executing_fresh_hash
            == now.executing_fresh_hash),
        r.1 ==> r.0,
{
}

/// The variables of the preset for a repository: for the one configuration, without the install
/// prefix, with the toolchain where there is one, exporting compile commands for Ninja, with the
/// directory of every package that is required and of no other, and otherwise as they were.
pub open spec fn are_dev_variables(
    context: PathContext,
    before: Option<VariablesView>,
    build_config: Seq<char>,
    generator: Seq<char>,
    toolchain: Option<Seq<char>>,
    dependencies: Seq<DependencyView>,
    after: VariablesView,
) -> bool {
    &&& !after.contains_key("CMAKE_INSTALL_PREFIX"@)
    &&& is_set(after, "CMAKE_CONFIGURATION_TYPES"@, build_config)
    &&& is_set(after, "CMAKE_BUILD_TYPE"@, build_config)
    &&& if text::contains_text(generator, "Ninja"@) {
        is_set(after, "CMAKE_EXPORT_COMPILE_COMMANDS"@, "ON"@)
    } else {
        !after.contains_key("CMAKE_EXPORT_COMPILE_COMMANDS"@)
    }
    &&& match toolchain {
        Some(file) => is_set(
            after,
            "CMAKE_TOOLCHAIN_FILE"@,
            text::replace_of(context.absolute(file), "\\"@, "/"@),
        ),
        None => !after.contains_key("CMAKE_TOOLCHAIN_FILE"@),
    }
    &&& forall|i: int|
        0 <= i < dependencies.len() && (forall|j: int|
            i < j < dependencies.len() ==> (#[trigger] dependencies[j]).name
                != dependencies[i].name) ==> is_set(
            after,
            (#[trigger] dependencies[i]).name + "_DIR"@,
            text::replace_of(context.absolute(dependencies[i].config_dir), "\\"@, "/"@),
        )
    &&& forall|key: Seq<char>| #[trigger]
        after.contains_key(key) && text::ends_in(key, "_DIR"@) ==> exists|i: int|
            0 <= i < dependencies.len() && key == (#[trigger] dependencies[i]).name + "_DIR"@
    &&& forall|key: Seq<char>|
        !text::ends_in(key, "_DIR"@) && !is_governed(key) ==> #[trigger] is_kept(before, after, key)
}

/// The variable is one that the preset for a repository decides on.
pub open spec fn is_governed(key: Seq<char>) -> bool {
    ||| key == "CMAKE_INSTALL_PREFIX"@
    ||| key == "CMAKE_CONFIGURATION_TYPES"@
    ||| key == "CMAKE_BUILD_TYPE"@
    ||| key == "CMAKE_EXPORT_COMPILE_COMMANDS"@
    ||| key == "CMAKE_TOOLCHAIN_FILE"@
}

/// The variable is there exactly where it was, with the same value.
pub open spec fn is_kept(
    before: Option<VariablesView>,
    after: VariablesView,
    key: Seq<char>,
) -> bool {
    let had = before is Some && before->0.contains_key(key);
    &&& after.contains_key(key) == had
    &&& had ==> after[key] == before->0[key]
}

/// The variable is set to the text.
pub open spec fn is_set(vars: VariablesView, key: Seq<char>, value: Seq<char>) -> bool {
    vars.contains_key(key) && vars[key] == CacheValueView::Text(value)
}

proof fn lemma_dirs(
    context: PathContext,
    vars: VariablesView,
    dependencies: Seq<DependencyView>,
    n: int,
)
    requires
        0 <= n <= dependencies.len(),
    ensures
        ({
            let all = cmake_configure::with_dirs(context, vars, dependencies, n);
            &&& forall|i: int|
                0 <= i < n && (forall|j: int|
                    i < j < n ==> (#[trigger] dependencies[j]).name != dependencies[i].name)
                    ==> is_set(
                    all,
                    (#[trigger] dependencies[i]).name + "_DIR"@,
                    text::replace_of(context.absolute(dependencies[i].config_dir), "\\"@, "/"@),
                )
            &&& forall|key: Seq<char>|
                (forall|i: int| 0 <= i < n ==> key != (#[trigger] dependencies[i]).name + "_DIR"@)
                    ==> #[trigger] all.contains_key(key) == vars.contains_key(key) && (
                all.contains_key(key) ==> all[key] == vars[key])
        }),
    decreases n,
{
    if n > 0 {
        lemma_dirs(context, vars, dependencies, n - 1);
        let less = cmake_configure::with_dirs(context, vars, dependencies, n - 1);
        let all = cmake_configure::with_dirs(context, vars, dependencies, n);
        let last = dependencies[n - 1];
        assert forall|i: int|
            0 <= i < n && (forall|j: int|
                i < j < n ==> (#[trigger] dependencies[j]).name
                    != dependencies[i].name) implies is_set(
            all,
            (#[trigger] dependencies[i]).name + "_DIR"@,
            text::replace_of(context.absolute(dependencies[i].config_dir), "\\"@, "/"@),
        ) by {
            if i < n - 1 {
                assert(dependencies[n - 1].name != dependencies[i].name);
                let a = dependencies[i].name;
                let b = last.name;
                if a + "_DIR"@ == b + "_DIR"@ {
                    assert((a + "_DIR"@).len() == (b + "_DIR"@).len());
                    assert((a + "_DIR"@).take(a.len() as int) =~= a);
                    assert((b + "_DIR"@).take(b.len() as int) =~= b);
                }
                assert forall|j: int| i < j < n - 1 implies (#[trigger] dependencies[j]).name
                    != dependencies[i].name by {}
                assert(is_set(
                    less,
                    dependencies[i].name + "_DIR"@,
                    text::replace_of(context.absolute(dependencies[i].config_dir), "\\"@, "/"@),
                ));
            }
        }
        assert forall|key: Seq<char>|
            (forall|i: int|
                0 <= i < n ==> key != (#[trigger] dependencies[i]).name
                    + "_DIR"@) implies #[trigger] all.contains_key(key) == vars.contains_key(key)
            && (all.contains_key(key) ==> all[key] == vars[key]) by {
            assert(key != dependencies[n - 1].name + "_DIR"@);
            assert forall|i: int| 0 <= i < n - 1 implies key != (#[trigger] dependencies[i]).name
                + "_DIR"@ by {}
            assert(less.contains_key(key) == vars.contains_key(key));
        }
    }
}

proof fn lemma_dev_variables(
    context: PathContext,
    before: Option<VariablesView>,
    build_config: Seq<char>,
    generator: Seq<char>,
    toolchain: Option<Seq<char>>,
    dependencies: Seq<DependencyView>,
)
    ensures
        are_dev_variables(
            context,
            before,
            build_config,
            generator,
            toolchain,
            dependencies,
            cmake_configure::dev_variables(
                context,
                before,
                build_config,
                generator,
                toolchain,
                dependencies,
            ),
        ),
{
    cmake_configure::lemma_fixed_variables();
    let n = dependencies.len() as int;
    let equipped = cmake_configure::equipped_variables(
        context,
        before,
        build_config,
        generator,
        toolchain,
    );
    let bare = cmake_configure::without_dirs(equipped);
    let all = cmake_configure::with_dirs(context, bare, dependencies, n);
    lemma_dirs(context, bare, dependencies, n);
    assert forall|key: Seq<char>| !text::ends_in(key, "_DIR"@) implies #[trigger] all.contains_key(
        key,
    ) == equipped.contains_key(key) && (all.contains_key(key) ==> all[key] == equipped[key]) by {
        assert forall|i: int| 0 <= i < n implies key != (#[trigger] dependencies[i]).name
            + "_DIR"@ by {
            let made = dependencies[i].name + "_DIR"@;
            assert(made.skip(made.len() - "_DIR"@.len()) =~= "_DIR"@);
        }
        assert(bare.contains_key(key) == equipped.contains_key(key));
    }
    assert forall|key: Seq<char>| #[trigger] all.contains_key(key) && text::ends_in(
        key,
        "_DIR"@,
    ) implies exists|i: int|
        0 <= i < dependencies.len() && key == (#[trigger] dependencies[i]).name + "_DIR"@ by {
        if forall|i: int| 0 <= i < n ==> key != (#[trigger] dependencies[i]).name + "_DIR"@ {
            assert(all.contains_key(key) == bare.contains_key(key));
        }
    }
    assert forall|key: Seq<char>| !text::ends_in(key, "_DIR"@) && !is_governed(
        key,
    ) implies #[trigger] is_kept(before, all, key) by {
        assert(all.contains_key(key) == equipped.contains_key(key));
    }
    assert(all.contains_key("CMAKE_INSTALL_PREFIX"@) == equipped.contains_key(
        "CMAKE_INSTALL_PREFIX"@,
    ));
    assert(all.contains_key("CMAKE_CONFIGURATION_TYPES"@) == equipped.contains_key(
        "CMAKE_CONFIGURATION_TYPES"@,
    ));
    assert(all.contains_key("CMAKE_BUILD_TYPE"@) == equipped.contains_key("CMAKE_BUILD_TYPE"@));
    assert(all.contains_key("CMAKE_EXPORT_COMPILE_COMMANDS"@) == equipped.contains_key(
        "CMAKE_EXPORT_COMPILE_COMMANDS"@,
    ));
    assert(all.contains_key("CMAKE_TOOLCHAIN_FILE"@) == equipped.contains_key(
        "CMAKE_TOOLCHAIN_FILE"@,
    ));
}

proof fn lemma_marks()
    ensures
        "0"@ != "1"@,
        "-"@ != "0"@,
        "-"@ != "1"@,
        "s"@ != "j"@,
{
    reveal_strlit("0");
    reveal_strlit("1");
    reveal_strlit("-");
    reveal_strlit("s");
    reveal_strlit("j");
    assert("0"@[0] != "1"@[0]);
    assert("-"@[0] != "0"@[0]);
    assert("-"@[0] != "1"@[0]);
    assert("s"@[0] != "j"@[0]);
}

proof fn lemma_opt_parts(
    a: Option<Seq<char>>,
    s: Seq<Seq<char>>,
    b: Option<Seq<char>>,
    t: Seq<Seq<char>>,
)
    ensures
        cmake_configure::opt_parts(a) + s == cmake_configure::opt_parts(b) + t <==> a == b && s
            == t,
{
    lemma_marks();
    let x = cmake_configure::opt_parts(a) + s;
    let y = cmake_configure::opt_parts(b) + t;
    if x == y {
        assert(x[0] == y[0]);
        if a is Some {
            assert(x[1] == a->0 && y[1] == b->0);
            assert(s =~= x.skip(2) && t =~= y.skip(2));
        } else {
            assert(s =~= x.skip(1) && t =~= y.skip(1));
        }
    }
}

proof fn lemma_opt_list_parts(
    a: Option<Seq<Seq<char>>>,
    s: Seq<Seq<char>>,
    b: Option<Seq<Seq<char>>>,
    t: Seq<Seq<char>>,
)
    ensures
        cmake_configure::opt_list_parts(a) + s == cmake_configure::opt_list_parts(b) + t <==> a == b
            && s == t,
{
    lemma_marks();
    let x = cmake_configure::opt_list_parts(a) + s;
    let y = cmake_configure::opt_list_parts(b) + t;
    if x == y {
        assert(x[0] == y[0]);
        if a is Some {
            assert(x.skip(1) =~= hash::list_parts(a->0) + s);
            assert(y.skip(1) =~= hash::list_parts(b->0) + t);
            hash::lemma_list_parts(a->0, s, b->0, t);
        } else {
            assert(s =~= x.skip(1) && t =~= y.skip(1));
        }
    }
}

proof fn lemma_variable_parts_len(vars: VariablesView, keys: Seq<Seq<char>>, n: int)
    requires
        0 <= n,
    ensures
        cmake_configure::variable_parts(vars, keys, n).len() == 3 * n,
    decreases n,
{
    if n > 0 {
        lemma_variable_parts_len(vars, keys, n - 1);
    }
}

proof fn lemma_opt_variable_parts(
    a: Option<VariablesView>,
    s: Seq<Seq<char>>,
    b: Option<VariablesView>,
    t: Seq<Seq<char>>,
)
    ensures
        cmake_configure::opt_variable_parts(a) + s == cmake_configure::opt_variable_parts(b) + t
            ==> cmake_configure::opt_variable_parts(a) == cmake_configure::opt_variable_parts(b)
            && s == t,
{
    lemma_marks();
    let p = cmake_configure::opt_variable_parts(a);
    let q = cmake_configure::opt_variable_parts(b);
    let x = p + s;
    let y = q + t;
    if x == y {
        assert(x[0] == y[0]);
        if a is Some {
            let m = maps::ascending_keys(a->0);
            let n = maps::ascending_keys(b->0);
            assert(x[1] == text::decimal_of(m.len()) && y[1] == text::decimal_of(n.len()));
            text_laws::law_decimal_tells_numbers_apart(m.len(), n.len());
            lemma_variable_parts_len(a->0, m, m.len() as int);
            lemma_variable_parts_len(b->0, n, n.len() as int);
        }
        assert(p.len() == q.len());
        assert(p =~= x.take(p.len() as int) && q =~= y.take(p.len() as int));
        assert(s =~= x.skip(p.len() as int) && t =~= y.skip(p.len() as int));
    }
}

proof fn lemma_regrouped(
    a: Seq<Seq<char>>,
    b: Seq<Seq<char>>,
    c: Seq<Seq<char>>,
    d: Seq<Seq<char>>,
    e: Seq<Seq<char>>,
    f: Seq<Seq<char>>,
    s: Seq<Seq<char>>,
)
    ensures
        a + b + c + d + e + f + s == a + (b + (c + (d + (e + (f + s))))),
{
    assert(e + f + s =~= e + (f + s));
    assert(d + e + f + s =~= d + (e + f + s));
    assert(c + d + e + f + s =~= c + (d + e + f + s));
    assert(b + c + d + e + f + s =~= b + (c + d + e + f + s));
    assert(a + b + c + d + e + f + s =~= a + (b + c + d + e + f + s));
}

proof fn lemma_preset_parts(p: PresetView, s: Seq<Seq<char>>, q: PresetView, t: Seq<Seq<char>>)
    requires
        cmake_configure::preset_parts(p) + s == cmake_configure::preset_parts(q) + t,
    ensures
        s == t,
        p.name == q.name,
        p.inherits == q.inherits,
        p.generator == q.generator,
        p.binary_dir == q.binary_dir,
        cmake_configure::opt_variable_parts(p.variables) == cmake_configure::opt_variable_parts(
            q.variables,
        ),
        cmake_configure::tail_parts(p) == cmake_configure::tail_parts(q),
{
    let x = cmake_configure::preset_parts(p) + s;
    let y = cmake_configure::preset_parts(q) + t;
    let pf = cmake_configure::tail_parts(p) + s;
    let qf = cmake_configure::tail_parts(q) + t;
    let pe = cmake_configure::opt_variable_parts(p.variables) + pf;
    let qe = cmake_configure::opt_variable_parts(q.variables) + qf;
    let pd = cmake_configure::opt_parts(p.binary_dir) + pe;
    let qd = cmake_configure::opt_parts(q.binary_dir) + qe;
    let pc = cmake_configure::opt_parts(p.generator) + pd;
    let qc = cmake_configure::opt_parts(q.generator) + qd;
    let pb = cmake_configure::opt_list_parts(p.inherits) + pc;
    let qb = cmake_configure::opt_list_parts(q.inherits) + qc;
    lemma_regrouped(
        seq![p.name],
        cmake_configure::opt_list_parts(p.inherits),
        cmake_configure::opt_parts(p.generator),
        cmake_configure::opt_parts(p.binary_dir),
        cmake_configure::opt_variable_parts(p.variables),
        cmake_configure::tail_parts(p),
        s,
    );
    lemma_regrouped(
        seq![q.name],
        cmake_configure::opt_list_parts(q.inherits),
        cmake_configure::opt_parts(q.generator),
        cmake_configure::opt_parts(q.binary_dir),
        cmake_configure::opt_variable_parts(q.variables),
        cmake_configure::tail_parts(q),
        t,
    );
    assert(x == seq![p.name] + pb);
    assert(y == seq![q.name] + qb);
    assert(x[0] == p.name && y[0] == q.name);
    assert(x.skip(1) =~= pb);
    assert(y.skip(1) =~= qb);
    lemma_opt_list_parts(p.inherits, pc, q.inherits, qc);
    lemma_opt_parts(p.generator, pd, q.generator, qd);
    lemma_opt_parts(p.binary_dir, pe, q.binary_dir, qe);
    lemma_opt_variable_parts(p.variables, pf, q.variables, qf);
    assert(cmake_configure::tail_parts(p) =~= pf.take(4));
    assert(cmake_configure::tail_parts(q) =~= qf.take(4));
    assert(s =~= pf.skip(4) && t =~= qf.skip(4));
}

proof fn lemma_variable_parts(
    v: VariablesView,
    w: VariablesView,
    keys: Seq<Seq<char>>,
    others: Seq<Seq<char>>,
    n: int,
)
    requires
        0 <= n <= keys.len(),
        n <= others.len(),
        cmake_configure::variable_parts(v, keys, n) == cmake_configure::variable_parts(
            w,
            others,
            n,
        ),
    ensures
        forall|i: int| 0 <= i < n ==> #[trigger] keys[i] == others[i] && v[keys[i]] == w[others[i]],
    decreases n,
{
    if n > 0 {
        lemma_marks();
        lemma_variable_parts_len(v, keys, n - 1);
        lemma_variable_parts_len(w, others, n - 1);
        let x = cmake_configure::variable_parts(v, keys, n);
        let y = cmake_configure::variable_parts(w, others, n);
        let m = 3 * (n - 1);
        assert(x.take(m) =~= cmake_configure::variable_parts(v, keys, n - 1));
        assert(y.take(m) =~= cmake_configure::variable_parts(w, others, n - 1));
        lemma_variable_parts(v, w, keys, others, n - 1);
        assert(x[m] == keys[n - 1] && y[m] == others[n - 1]);
        assert(x[m + 1] == cmake_configure::value_parts(v[keys[n - 1]])[0]);
        assert(y[m + 1] == cmake_configure::value_parts(w[others[n - 1]])[0]);
        assert(x[m + 2] == cmake_configure::value_parts(v[keys[n - 1]])[1]);
        assert(y[m + 2] == cmake_configure::value_parts(w[others[n - 1]])[1]);
    }
}

/// The preset is one that can be held: it has finitely many variables.
pub open spec fn is_finite(p: PresetView) -> bool {
    (p.variables is Some ==> p.variables->0.dom().finite()) && p.depth >= 0
}

/// What is hashed of presets tells them apart: in their names, what they inherit from, their
/// generators, binary directories and variables, and everything else.
pub proof fn law_presets_are_told_apart(p: PresetView, q: PresetView)
    requires
        is_finite(p),
        is_finite(q),
    ensures
        cmake_configure::preset_parts(p) == cmake_configure::preset_parts(q) <==> p == q,
{
    if cmake_configure::preset_parts(p) == cmake_configure::preset_parts(q) {
        let none = Seq::<Seq<char>>::empty();
        lemma_preset_parts(p, none, q, none);
        lemma_marks();
        let a = cmake_configure::opt_variable_parts(p.variables);
        let b = cmake_configure::opt_variable_parts(q.variables);
        assert(a[0] == b[0]);
        if p.variables is Some {
            let v = p.variables->0;
            let w = q.variables->0;
            maps::lemma_keys_of(v);
            maps::lemma_keys_of(w);
            let keys = maps::ascending_keys(v);
            let others = maps::ascending_keys(w);
            assert(a[1] == text::decimal_of(keys.len()) && b[1] == text::decimal_of(others.len()));
            text_laws::law_decimal_tells_numbers_apart(keys.len(), others.len());
            let n = keys.len() as int;
            assert(a.skip(2) =~= cmake_configure::variable_parts(v, keys, n));
            assert(b.skip(2) =~= cmake_configure::variable_parts(w, others, n));
            lemma_variable_parts(v, w, keys, others, n);
            assert(keys =~= others);
            assert forall|k: Seq<char>| #[trigger] v.contains_key(k) implies v[k] == w[k] by {
                assert(keys.to_set().contains(k));
                let i = keys.index_of(k);
                assert(keys[i] == k);
            }
            assert(v =~= w);
        }
        let x = cmake_configure::tail_parts(p);
        let y = cmake_configure::tail_parts(q);
        assert(x[0] == y[0] && x[1] == y[1] && x[2] == y[2] && x[3] == y[3]);
        text_laws::law_decimal_tells_numbers_apart(p.depth as nat, q.depth as nat);
        assert(p.hidden == q.hidden);
    }
}

/// How the preset for a repository was made: from a preset that it inherits from now, which is one
/// of the user's or the repository's with what it inherits, and fits; with its own name and
/// settings, but with the variables that the repository is to have.
pub open spec fn is_prepared(
    context: PathContext,
    info: &CMakeConfigureInfo,
    presets: Seq<PresetView>,
    user: Seq<PresetView>,
    dependencies: Seq<DependencyView>,
    plan: ConfigurePlan,
    candidates: Seq<PresetView>,
    base: int,
    dev: int,
    old_dev: PresetView,
) -> bool {
    let list = cmake_presets::preset_views(plan.preset.user_presets.configure_presets@);
    let made = list[dev];
    &&& cmake_presets::expand_first(
        user.filter(|p: PresetView| p.name != "multi_repo_dev_config"@) + presets,
        (user.filter(|p: PresetView| p.name != "multi_repo_dev_config"@) + presets).len() as int,
    ) == Some(candidates)
    &&& 0 <= dev < list.len()
    &&& if dev < user.len() {
        old_dev == user[dev] && list.len() == user.len()
    } else {
        dev == user.len() && list.len() == user.len() + 1 && old_dev
            == cmake_presets::named_preset("multi_repo_dev_config"@) && forall|j: int|
            0 <= j < user.len() ==> (#[trigger] user[j]).name != "multi_repo_dev_config"@
    }
    &&& old_dev.name == "multi_repo_dev_config"@
    &&& forall|j: int| 0 <= j < user.len() && j != dev ==> #[trigger] list[j] == user[j]
    &&& forall|j: int|
        0 <= j < dev && j < user.len() ==> (#[trigger] user[j]).name != "multi_repo_dev_config"@
    &&& exists|preferred: Option<int>| #[trigger]
        is_base(
            candidates,
            info.build_config@,
            info.cmake_generator_keyword@,
            preferred,
            base,
        ) && is_preferred(candidates, old_dev, preferred)
    &&& candidates[base].generator == Some(plan.preset.cmake_generator@)
    &&& candidates[base].binary_dir is Some && cmake_configure::repo_relative(
        context,
        info.repo_path@,
        candidates[base].binary_dir->0,
        "binaryDir"@,
    ) == Ok::<Seq<char>, PresetFault>(plan.preset.binary_dir@)
    &&& installs_to(candidates[base]) is Some && cmake_configure::repo_relative(
        context,
        info.repo_path@,
        installs_to(candidates[base])->0,
        "CMAKE_INSTALL_PREFIX"@,
    ) == Ok::<Seq<char>, PresetFault>(plan.preset.install_dir@)
    &&& made.variables is Some
    &&& are_dev_variables(
        context,
        old_dev.variables,
        info.build_config@,
        plan.preset.cmake_generator@,
        text::opt_text(info.conan_toolchain_path),
        dependencies,
        made.variables->0,
    )
    &&& made == (PresetView {
        inherits: Some(seq![candidates[base].name]),
        binary_dir: None,
        variables: made.variables,
        ..old_dev
    })
    &&& plan.preset.changed <==> made != old_dev
    &&& text::texts(plan.preset.parts@) == cmake_configure::preset_parts(candidates[base])
        + cmake_configure::preset_parts(made)
}

/// The preset that is preferred is the first with the name that the preset for the repository
/// inherits from.
pub open spec fn is_preferred(
    presets: Seq<PresetView>,
    dev: PresetView,
    preferred: Option<int>,
) -> bool {
    let named = dev.inherits is Some && dev.inherits->0.len() > 0;
    match preferred {
        Some(i) => named && 0 <= i < presets.len() && presets[i].name == dev.inherits->0[0]
            && forall|j: int| 0 <= j < i ==> (#[trigger] presets[j]).name != dev.inherits->0[0],
        None => named ==> forall|j: int|
            0 <= j < presets.len() ==> (#[trigger] presets[j]).name != dev.inherits->0[0],
    }
}

proof fn lemma_named(presets: Seq<PresetView>, name: Seq<char>)
    ensures
        match cmake_configure::first_preset_named(presets, name) {
            Some(i) => 0 <= i < presets.len() && presets[i].name == name && forall|j: int|
                0 <= j < i ==> (#[trigger] presets[j]).name != name,
            None => forall|j: int| 0 <= j < presets.len() ==> (#[trigger] presets[j]).name != name,
        },
    decreases presets.len(),
{
    if presets.len() > 0 {
        let front = presets.drop_last();
        lemma_named(front, name);
        assert(forall|j: int| 0 <= j < front.len() ==> #[trigger] presets[j] == front[j]);
        assert(forall|j: int| 0 <= j < front.len() ==> #[trigger] front[j] == presets[j]);
        assert(presets[presets.len() - 1] == presets.last());
    }
}

proof fn lemma_own_presets(user: Seq<PresetView>)
    ensures
        cmake_configure::own_presets(user) == user.filter(
            |p: PresetView| p.name != "multi_repo_dev_config"@,
        ),
    decreases user.len(),
{
    reveal(Seq::filter);
    if user.len() > 0 {
        lemma_own_presets(user.drop_last());
    } else {
        assert(cmake_configure::own_presets(user) =~= user);
    }
}

/// Where a preset installs to.
pub open spec fn installs_to(preset: PresetView) -> Option<Seq<char>> {
    match preset.variables {
        Some(vars) => if vars.contains_key("CMAKE_INSTALL_PREFIX"@) {
            match vars["CMAKE_INSTALL_PREFIX"@] {
                CacheValueView::Text(dir) => Some(dir),
                _ => None,
            }
        } else {
            None
        },
        None => None,
    }
}

/// There is a way in which the preset for a repository was made.
pub open spec fn is_made(
    context: PathContext,
    info: &CMakeConfigureInfo,
    presets: Seq<PresetView>,
    user: Seq<PresetView>,
    dependencies: Seq<DependencyView>,
    plan: ConfigurePlan,
) -> bool {
    exists|candidates: Seq<PresetView>, base: int, dev: int, old_dev: PresetView| #[trigger]
        is_prepared(
            context,
            info,
            presets,
            user,
            dependencies,
            plan,
            candidates,
            base,
            dev,
            old_dev,
        )
}

/// The preset for a repository is made as it is to be, and CMake is told to use it and gets the
/// options of the repository behind it.
pub proof fn law_preset_is_made_for_the_repository(
    context: &PathContext,
    info: &CMakeConfigureInfo,
    presets: CMakePresets,
    user_presets: CMakePresets,
    dependencies: &Vec<CMakeDependencyInfo>,
    last: &Option<CMakeConfigureFingerprint>,
    plan: ConfigurePlan,
)
    requires
        call_ensures(
            cmake_configure::cmake_configure,
            (context, info, presets, user_presets, dependencies, last),
            Ok::<ConfigurePlan, PresetError>(plan),
        ),
    ensures
        is_made(
            *context,
            info,
            cmake_presets::preset_views(presets.configure_presets@),
            cmake_presets::preset_views(user_presets.configure_presets@),
            cmake_configure::dependency_views(dependencies@),
            plan,
        ),
        ({
            let given = text::texts(plan.arguments@);
            let options = text::texts(info.extra_cmake_options@);
            let at = if plan.need_fresh {
                3int
            } else {
                2
            };
            &&& given[0] == "--preset="@ + "multi_repo_dev_config"@
            &&& given[1] == "-Wno-dev"@
            &&& plan.need_fresh ==> given[2] == "--fresh"@
            &&& given.len() == at + options.len()
            &&& forall|i: int| 0 <= i < options.len() ==> #[trigger] given[at + i] == options[i]
        }),
        plan.fingerprint.conan_toolchain_hash == info.conan_toolchain_hash,
        !plan.need_configure <==> !info.need_cmake && !info.need_cmake_fresh && *last == Some(
            plan.fingerprint,
        ),
        !plan.need_fresh <==> !info.need_cmake_fresh && (*last matches Some(before)
            && before.conan_toolchain_hash == plan.fingerprint.conan_toolchain_hash
            && before.executing_fresh_hash == plan.fingerprint.executing_fresh_hash),
{
    let repo = cmake_presets::preset_views(presets.configure_presets@);
    let user = cmake_presets::preset_views(user_presets.configure_presets@);
    let list = cmake_presets::preset_views(plan.preset.user_presets.configure_presets@);
    let deps = cmake_configure::dependency_views(dependencies@);
    let toolchain = text::opt_text(info.conan_toolchain_path);
    let all = cmake_configure::own_presets(user) + repo;
    lemma_own_presets(user);
    let candidates = cmake_presets::expand_first(all, all.len() as int)->0;
    let (start, dev) = cmake_configure::with_dev_preset(user);
    lemma_named(user, "multi_repo_dev_config"@);
    let old_dev = start[dev];
    let preferred = cmake_configure::preferred_base(candidates, old_dev);
    if old_dev.inherits is Some && old_dev.inherits->0.len() > 0 {
        lemma_named(candidates, old_dev.inherits->0[0]);
    }
    lemma_base(candidates, info.build_config@, info.cmake_generator_keyword@, preferred);
    let update = cmake_configure::updated_dev_preset(
        *context,
        candidates,
        old_dev,
        info.build_config@,
        info.cmake_generator_keyword@,
        toolchain,
        deps,
    )->Ok_0;
    lemma_dev_variables(
        *context,
        old_dev.variables,
        info.build_config@,
        update.generator,
        toolchain,
        deps,
    );
    assert(list == start.update(dev, update.dev));
    assert(is_preferred(candidates, old_dev, preferred));
    assert(is_base(
        candidates,
        info.build_config@,
        info.cmake_generator_keyword@,
        preferred,
        update.base,
    ));
    assert(is_prepared(
        *context,
        info,
        repo,
        user,
        deps,
        plan,
        candidates,
        update.base,
        dev,
        old_dev,
    ));
}

/// What two configurations rest on tells apart the presets they use, the options of the
/// repository, the packages it requires and the generator.
pub proof fn law_configurations_are_told_apart(
    context: &PathContext,
    a: &CMakeConfigureInfo,
    a_presets: CMakePresets,
    a_user: CMakePresets,
    a_packages: &Vec<CMakeDependencyInfo>,
    a_last: &Option<CMakeConfigureFingerprint>,
    x: ConfigurePlan,
    b: &CMakeConfigureInfo,
    b_presets: CMakePresets,
    b_user: CMakePresets,
    b_packages: &Vec<CMakeDependencyInfo>,
    b_last: &Option<CMakeConfigureFingerprint>,
    y: ConfigurePlan,
)
    requires
        call_ensures(
            cmake_configure::cmake_configure,
            (context, a, a_presets, a_user, a_packages, a_last),
            Ok::<ConfigurePlan, PresetError>(x),
        ),
        call_ensures(
            cmake_configure::cmake_configure,
            (context, b, b_presets, b_user, b_packages, b_last),
            Ok::<ConfigurePlan, PresetError>(y),
        ),
    ensures
        hash::rest_on_same(
            x.fingerprint.executing_cmake_hash,
            y.fingerprint.executing_cmake_hash,
            text::texts(x.preset.parts@) == text::texts(y.preset.parts@) && text::texts(
                a.extra_cmake_options@,
            ) == text::texts(b.extra_cmake_options@),
        ),
        hash::rest_on_same(
            x.fingerprint.executing_fresh_hash,
            y.fingerprint.executing_fresh_hash,
            x.preset.cmake_generator@ == y.preset.cmake_generator@ && (forall|name: Seq<char>|
                is_required(a_packages@, name) <==> #[trigger] is_required(b_packages@, name)),
        ),
{
    let repo = cmake_presets::preset_views(a_presets.configure_presets@);
    let user = cmake_presets::preset_views(a_user.configure_presets@);
    law_preset_is_made_for_the_repository(context, a, a_presets, a_user, a_packages, a_last, x);
    law_preset_is_made_for_the_repository(context, b, b_presets, b_user, b_packages, b_last, y);
    let p = text::texts(x.preset.parts@);
    let q = text::texts(y.preset.parts@);
    let s = hash::list_parts(text::texts(a.extra_cmake_options@));
    let t = hash::list_parts(text::texts(b.extra_cmake_options@));
    hash::lemma_rest_on_same(p + s, q + t);
    if p + s == q + t {
        lemma_two_presets(context, a, a_presets, a_user, a_packages, x, b, b_presets, b_user, b_packages, y);
        let none = Seq::<Seq<char>>::empty();
        assert(s + none =~= s && t + none =~= t);
        hash::lemma_list_parts(
            text::texts(a.extra_cmake_options@),
            none,
            text::texts(b.extra_cmake_options@),
            none,
        );
    }
    lemma_fresh_hash(a_packages, x.preset.cmake_generator@, b_packages, y.preset.cmake_generator@);
}

proof fn lemma_two_presets(
    context: &PathContext,
    a: &CMakeConfigureInfo,
    a_presets: CMakePresets,
    a_user: CMakePresets,
    a_packages: &Vec<CMakeDependencyInfo>,
    x: ConfigurePlan,
    b: &CMakeConfigureInfo,
    b_presets: CMakePresets,
    b_user: CMakePresets,
    b_packages: &Vec<CMakeDependencyInfo>,
    y: ConfigurePlan,
)
    requires
        is_made(
            *context,
            a,
            cmake_presets::preset_views(a_presets.configure_presets@),
            cmake_presets::preset_views(a_user.configure_presets@),
            cmake_configure::dependency_views(a_packages@),
            x,
        ),
        is_made(
            *context,
            b,
            cmake_presets::preset_views(b_presets.configure_presets@),
            cmake_presets::preset_views(b_user.configure_presets@),
            cmake_configure::dependency_views(b_packages@),
            y,
        ),
        text::texts(x.preset.parts@) + hash::list_parts(text::texts(a.extra_cmake_options@))
            == text::texts(y.preset.parts@) + hash::list_parts(
            text::texts(b.extra_cmake_options@),
        ),
    ensures
        text::texts(x.preset.parts@) == text::texts(y.preset.parts@),
        hash::list_parts(text::texts(a.extra_cmake_options@)) == hash::list_parts(
            text::texts(b.extra_cmake_options@),
        ),
{
    let (c1, b1, d1, o1) = choose|
        candidates: Seq<PresetView>,
        base: int,
        dev: int,
        old_dev: PresetView,
    | #[trigger]
        is_prepared(
            *context,
            a,
            cmake_presets::preset_views(a_presets.configure_presets@),
            cmake_presets::preset_views(a_user.configure_presets@),
            cmake_configure::dependency_views(a_packages@),
            x,
            candidates,
            base,
            dev,
            old_dev,
        );
    let (c2, b2, d2, o2) = choose|
        candidates: Seq<PresetView>,
        base: int,
        dev: int,
        old_dev: PresetView,
    | #[trigger]
        is_prepared(
            *context,
            b,
            cmake_presets::preset_views(b_presets.configure_presets@),
            cmake_presets::preset_views(b_user.configure_presets@),
            cmake_configure::dependency_views(b_packages@),
            y,
            candidates,
            base,
            dev,
            old_dev,
        );
    let m1 = cmake_presets::preset_views(x.preset.user_presets.configure_presets@)[d1];
    let m2 = cmake_presets::preset_views(y.preset.user_presets.configure_presets@)[d2];
    let p1 = cmake_configure::preset_parts(c1[b1]);
    let p2 = cmake_configure::preset_parts(c2[b2]);
    let q1 = cmake_configure::preset_parts(m1);
    let q2 = cmake_configure::preset_parts(m2);
    let s = hash::list_parts(text::texts(a.extra_cmake_options@));
    let t = hash::list_parts(text::texts(b.extra_cmake_options@));
    assert(p1 + q1 + s =~= p1 + (q1 + s));
    assert(p2 + q2 + t =~= p2 + (q2 + t));
    lemma_preset_parts(c1[b1], q1 + s, c2[b2], q2 + t);
    lemma_preset_parts(m1, s, m2, t);
    assert(p1 =~= p2);
    assert(q1 =~= q2);
}

/// One of the packages has the name.
pub open spec fn is_required(packages: Seq<CMakeDependencyInfo>, name: Seq<char>) -> bool {
    exists|i: int| 0 <= i < packages.len() && (#[trigger] packages[i]).cmake_pkg_name@ == name
}

proof fn lemma_required_names(packages: Seq<CMakeDependencyInfo>, name: Seq<char>)
    ensures
        is_required(packages, name) <==> cmake_configure::dependency_names(
            cmake_configure::dependency_views(packages),
        ).to_set().contains(name),
{
    let views = cmake_configure::dependency_views(packages);
    let names = cmake_configure::dependency_names(views);
    if is_required(packages, name) {
        let i = choose|i: int|
            0 <= i < packages.len() && (#[trigger] packages[i]).cmake_pkg_name@ == name;
        assert(views[i].name == name);
        assert(names[i] == name);
        assert(names.contains(name));
    }
    if names.contains(name) {
        let i = names.index_of(name);
        assert(views[i].name == name);
        assert(packages[i].cmake_pkg_name@ == name);
    }
}

proof fn lemma_fresh_hash(
    a: &Vec<CMakeDependencyInfo>,
    g: Seq<char>,
    b: &Vec<CMakeDependencyInfo>,
    h: Seq<char>,
)
    ensures
        ({
            let m = cmake_configure::dependency_names(cmake_configure::dependency_views(a@));
            let n = cmake_configure::dependency_names(cmake_configure::dependency_views(b@));
            hash::rest_on_same(
                hash::hash_of(hash::list_parts(maps::ascending_set(m)).push(g)),
                hash::hash_of(hash::list_parts(maps::ascending_set(n)).push(h)),
                g == h && (forall|name: Seq<char>|
                    is_required(a@, name) <==> #[trigger] is_required(b@, name)),
            )
        }),
{
    let m = cmake_configure::dependency_names(cmake_configure::dependency_views(a@));
    let n = cmake_configure::dependency_names(cmake_configure::dependency_views(b@));
    let x = maps::ascending_set(m);
    let y = maps::ascending_set(n);
    m.lemma_cardinality_of_set();
    n.lemma_cardinality_of_set();
    let one = maps::lemma_can_ascend(m.to_set());
    let other = maps::lemma_can_ascend(n.to_set());
    assert(x.to_set() == m.to_set());
    assert(y.to_set() == n.to_set());
    let s = hash::list_parts(x).push(g);
    let t = hash::list_parts(y).push(h);
    hash::lemma_rest_on_same(s, t);
    assert(s =~= hash::list_parts(x) + seq![g]);
    assert(t =~= hash::list_parts(y) + seq![h]);
    hash::lemma_list_parts(x, seq![g], y, seq![h]);
    let same = forall|name: Seq<char>|
        is_required(a@, name) <==> #[trigger] is_required(b@, name);
    if s == t {
        assert(seq![g][0] == seq![h][0]);
        assert forall|name: Seq<char>| is_required(a@, name) <==> #[trigger] is_required(
            b@,
            name,
        ) by {
            lemma_required_names(a@, name);
            lemma_required_names(b@, name);
        }
    }
    if g == h && same {
        assert forall|name: Seq<char>| m.to_set().contains(name) <==> n.to_set().contains(
            name,
        ) by {
            lemma_required_names(a@, name);
            lemma_required_names(b@, name);
            assert(is_required(a@, name) <==> is_required(b@, name));
        }
        assert(m.to_set() =~= n.to_set());
    }
}

proof fn lemma_replaced_characters(s: Seq<char>, from: char, to: char)
    ensures
        text::replace_of(s, seq![from], seq![to]).len() == s.len(),
        forall|i: int|
            0 <= i < s.len() ==> #[trigger] text::replace_of(s, seq![from], seq![to])[i] == (
            if s[i] == from {
                to
            } else {
                s[i]
            }),
    decreases s.len(),
{
    if s.len() > 0 {
        let rest = s.skip(1);
        lemma_replaced_characters(rest, from, to);
        assert(s.take(1)[0] == s[0]);
        assert(text::begins_with(s, seq![from]) <==> s[0] == from) by {
            if s[0] == from {
                assert(s.take(1) =~= seq![from]);
            }
        }
        assert forall|i: int| 0 <= i < s.len() implies #[trigger] text::replace_of(
            s,
            seq![from],
            seq![to],
        )[i] == (if s[i] == from {
            to
        } else {
            s[i]
        }) by {
            if i > 0 {
                assert(rest[i - 1] == s[i]);
            }
        }
    }
}

/// A path as CMake writes it is the absolute one with a slash for each backslash.
pub proof fn law_cmake_paths(context: &PathContext, path: &str, r: String)
    requires
        call_ensures(cmake_configure::convert_to_cmake_path, (context, path), r),
    ensures
        r@.len() == context.absolute(path@).len(),
        forall|i: int|
            0 <= i < r@.len() ==> #[trigger] r@[i] == (if context.absolute(path@)[i] == '\\' {
                '/'
            } else {
                context.absolute(path@)[i]
            }),
{
    reveal_strlit("\\");
    reveal_strlit("/");
    assert("\\"@ =~= seq!['\\']);
    assert("/"@ =~= seq!['/']);
    lemma_replaced_characters(context.absolute(path@), '\\', '/');
}

/// A macro stands in a text: a dollar sign, letters, digits and underscores, or none, and an
/// opening brace.
pub open spec fn holds_macro(value: Seq<char>) -> bool {
    exists|before: Seq<char>, name: Seq<char>, after: Seq<char>|
        is_macro_name(name) && value == #[trigger] (before + seq!['$'] + name + seq!['{'] + after)
}

/// Letters, digits and underscores of ASCII only.
pub open spec fn is_macro_name(name: Seq<char>) -> bool {
    forall|i: int|
        0 <= i < name.len() ==> 'a' <= #[trigger] name[i] <= 'z' || 'A' <= name[i] <= 'Z' || '0'
            <= name[i] <= '9' || name[i] == '_'
}

proof fn lemma_macros(value: Seq<char>)
    ensures
        holds_macro(value) <==> cmake_configure::has_macro(value),
{
    if holds_macro(value) {
        let (before, name, after) = choose|before: Seq<char>, name: Seq<char>, after: Seq<char>|
            is_macro_name(name) && value == #[trigger] (before + seq!['$'] + name + seq!['{']
                + after);
        let i = before.len() as int;
        let tail = value.skip(i + 1);
        assert(tail =~= name + seq!['{'] + after);
        text_laws::lemma_first_index_is(name, '{', after);
        assert forall|k: int| i < k < i + 1 + name.len() implies cmake_configure::is_macro_char(
            #[trigger] value[k],
        ) by {
            assert(value[k] == name[k - i - 1]);
        }
        assert(cmake_configure::macro_at(value, i));
    }
    if cmake_configure::has_macro(value) {
        let i = choose|i: int| cmake_configure::macro_at(value, i);
        let tail = value.skip(i + 1);
        text::lemma_first_index(tail, '{');
        let open = text::first_index(tail, '{')->0;
        let name = tail.take(open);
        let before = value.take(i);
        let after = tail.skip(open + 1);
        assert forall|k: int| 0 <= k < name.len() implies 'a' <= #[trigger] name[k] <= 'z' || 'A'
            <= name[k] <= 'Z' || '0' <= name[k] <= '9' || name[k] == '_' by {
            assert(name[k] == value[i + 1 + k]);
            assert(cmake_configure::is_macro_char(value[i + 1 + k]));
        }
        assert(value =~= before + seq!['$'] + name + seq!['{'] + after);
    }
}

/// A macro is found exactly where one stands.
pub proof fn law_macros_are_found(value: &str, r: bool)
    requires
        call_ensures(cmake_configure::contains_preset_macro, (value,), r),
    ensures
        r == holds_macro(value@),
{
    lemma_macros(value@);
}

proof fn lemma_no_dollar(s: Seq<char>, sub: Seq<char>)
    requires
        text_laws::lacks(s, '$'),
        sub.len() > 0,
        sub[0] == '$',
    ensures
        !text::contains_text(s, sub),
        !cmake_configure::has_macro(s),
{
    if text::contains_text(s, sub) {
        let i = choose|i: int| text::occurs_at(s, sub, i);
        assert(s.subrange(i, i + sub.len())[0] == s[i]);
    }
    if cmake_configure::has_macro(s) {
        let i = choose|i: int| cmake_configure::macro_at(s, i);
        assert(s[i] == '$');
    }
}

/// A directory that a preset names without macros, or below the source directory, is told from the
/// root of the repository; one that rests on the environment is refused.
pub proof fn law_directories_of_presets(
    context: &PathContext,
    source_dir: &str,
    value: &str,
    field: &str,
    r: Result<String, PresetError>,
    rest: Seq<char>,
)
    requires
        call_ensures(
            cmake_configure::resolve_repo_relative_preset_path,
            (context, source_dir, value, field),
            r,
        ),
    ensures
        ({
            let style = context.style_view();
            let root = context.absolute(source_dir@);
            &&& text::contains_text(value@, "$env{"@) || text::contains_text(value@, "$penv{"@)
                ==> r is Err
            &&& text_laws::lacks(value@, '$') ==> is_told_from(
                style,
                context.absolute(
                    if paths::absolute_path(style, value@) {
                        value@
                    } else {
                        paths::joined_path(style, root, value@)
                    },
                ),
                root,
                r,
            )
            &&& value@ == "${sourceDir}"@ + rest && text_laws::lacks(root + rest, '$')
                ==> is_told_from(
                style,
                context.absolute(
                    if paths::absolute_path(style, root + rest) {
                        root + rest
                    } else {
                        paths::joined_path(style, root, root + rest)
                    },
                ),
                root,
                r,
            )
        }),
{
    reveal_strlit("${sourceDir}");
    reveal_strlit("$env{");
    reveal_strlit("$penv{");
    let style = context.style_view();
    let root = context.absolute(source_dir@);
    let from = "${sourceDir}"@;
    if text_laws::lacks(value@, '$') {
        lemma_no_dollar(value@, "$env{"@);
        lemma_no_dollar(value@, "$penv{"@);
        lemma_no_dollar(value@, from);
        text_laws::lemma_replacing_nothing(value@, from, root);
    }
    if value@ == from + rest && text_laws::lacks(root + rest, '$') {
        assert forall|i: int| 0 <= i < rest.len() implies #[trigger] rest[i] != '$' by {
            assert((root + rest)[root.len() + i] == rest[i]);
        }
        lemma_no_dollar(rest, from);
        text_laws::lemma_replacing_nothing(rest, from, root);
        let none = Seq::<char>::empty();
        assert(none + from + rest =~= value@);
        text_laws::law_replacing(none, from, rest, root);
        assert(none + root + rest =~= root + rest);
        lemma_no_dollar(root + rest, from);
        lemma_only_dollar(value@, rest, "$env{"@);
        lemma_only_dollar(value@, rest, "$penv{"@);
    }
}

/// The directory is told from the root, where that can be done by a relative path.
pub open spec fn is_told_from(
    style: char,
    full: Seq<char>,
    root: Seq<char>,
    r: Result<String, PresetError>,
) -> bool {
    match paths::relative_path(style, full, root) {
        Some(relative) => if paths::absolute_path(style, relative) {
            r is Err
        } else {
            r matches Ok(told) && told@ == relative
        },
        None => r is Err,
    }
}

proof fn lemma_only_dollar(value: Seq<char>, rest: Seq<char>, sub: Seq<char>)
    requires
        value == "${sourceDir}"@ + rest,
        text_laws::lacks(rest, '$'),
        sub.len() > 1,
        sub[0] == '$',
        sub[1] != '{',
    ensures
        !text::contains_text(value, sub),
{
    reveal_strlit("${sourceDir}");
    if text::contains_text(value, sub) {
        let i = choose|i: int| text::occurs_at(value, sub, i);
        let part = value.subrange(i, i + sub.len());
        assert(part[0] == value[i] && part[1] == value[i + 1]);
        if i >= 12 {
            assert(value[i] == rest[i - 12]);
        } else if i > 0 {
            assert("${sourceDir}"@[i] != '$');
        }
    }
}

/// As many quotation marks.
pub open spec fn quotation_marks(n: nat) -> Seq<char> {
    Seq::new(n, |i: int| '"')
}

/// The text is a line of the cache that names the project, with white space around it and its
/// value, which may stand in quotation marks.
pub open spec fn is_name_line(line: Seq<char>, name: Seq<char>) -> bool {
    exists|a: Seq<char>, kind: Seq<char>, b: Seq<char>, c: Seq<char>, m: nat, n: nat|
        text_laws::is_blank(a) && text_laws::is_blank(b) && text_laws::is_blank(c)
            && text_laws::lacks(kind, '=') && line == #[trigger] (a + ("CMAKE_PROJECT_NAME:"@ + kind
            + seq!['='] + (b + (quotation_marks(m) + name + quotation_marks(n)))) + c)
}

proof fn lemma_quoted(m: nat, n: nat, name: Seq<char>)
    requires
        name.len() > 0,
        name[0] != '"' && name.last() != '"',
    ensures
        text::strip_trailing(
            text::strip_leading(quotation_marks(m) + name + quotation_marks(n), '"'),
            '"',
        ) == name,
{
    let most = name + quotation_marks(n);
    assert(quotation_marks(m) =~= Seq::new(m, |i: int| '"'));
    assert(quotation_marks(n) =~= Seq::new(n, |i: int| '"'));
    text_laws::law_stripping(n, '"', name);
    lemma_led_in(m, most);
    assert(quotation_marks(m) + name + quotation_marks(n) =~= quotation_marks(m) + most);
}

proof fn lemma_led_in(m: nat, s: Seq<char>)
    requires
        s.len() > 0,
        s[0] != '"',
    ensures
        text::strip_leading(quotation_marks(m) + s, '"') == s,
    decreases m,
{
    let run = quotation_marks(m);
    if m == 0 {
        assert(run + s =~= s);
    } else {
        lemma_led_in((m - 1) as nat, s);
        assert((run + s).skip(1) =~= quotation_marks((m - 1) as nat) + s);
        assert((run + s)[0] == '"');
    }
}

/// What is left of a line behind the name of the variable.
proof fn lemma_name_value(rest: Seq<char>, kind: Seq<char>, b: Seq<char>, value: Seq<char>)
    requires
        rest == kind + seq!['='] + (b + value),
        text_laws::lacks(kind, '='),
        text_laws::is_blank(b),
        value.len() > 0,
        !text::is_space(value[0]) && !text::is_space(value.last()),
    ensures
        text::first_index(rest, '=') == Some(kind.len() as int),
        text::trim_of(rest.skip(kind.len() as int + 1)) == value,
{
    text_laws::lemma_first_index_is(kind, '=', b + value);
    assert(rest.skip(kind.len() as int + 1) =~= b + value);
    let none = Seq::<char>::empty();
    text_laws::law_trimming_finds_the_text(b, value, none);
    assert(b + value + none =~= b + value);
}

proof fn lemma_name_line(line: Seq<char>, name: Seq<char>)
    requires
        is_name_line(line, name),
        name.len() > 0,
        !text::is_space(name[0]) && !text::is_space(name.last()),
        name[0] != '"' && name.last() != '"',
    ensures
        cmake_configure::project_name_in(line) == Some(name),
{
    let key = "CMAKE_PROJECT_NAME:"@;
    let (a, kind, b, c, m, n) = choose|
        a: Seq<char>,
        kind: Seq<char>,
        b: Seq<char>,
        c: Seq<char>,
        m: nat,
        n: nat,
    |
        text_laws::is_blank(a) && text_laws::is_blank(b) && text_laws::is_blank(c)
            && text_laws::lacks(kind, '=') && line == #[trigger] (a + ("CMAKE_PROJECT_NAME:"@ + kind
            + seq!['='] + (b + (quotation_marks(m) + name + quotation_marks(n)))) + c);
    let value = quotation_marks(m) + name + quotation_marks(n);
    let rest = kind + seq!['='] + (b + value);
    let middle = key + kind + seq!['='] + (b + value);
    assert(value[0] == (if m > 0 { '"' } else { name[0] }));
    assert(value.last() == (if n > 0 { '"' } else { name.last() }));
    assert(!text::is_space('"'));
    assert(text::trim_of(line) == middle) by {
        reveal_strlit("CMAKE_PROJECT_NAME:");
        assert(middle[0] == 'C');
        assert(!text::is_space('C'));
        assert(middle.last() == value.last());
        text_laws::law_trimming_finds_the_text(a, middle, c);
    }
    assert(text::after_prefix(middle, key) == Some(rest)) by {
        assert(middle =~= key + rest);
        text_laws::law_affixes(key, rest, key);
    }
    lemma_name_value(rest, kind, b, value);
    lemma_quoted(m, n, name);
}

proof fn lemma_other_line(line: Seq<char>)
    requires
        !text::contains_text(line, "CMAKE_PROJECT_NAME:"@),
    ensures
        cmake_configure::project_name_in(line) is None,
{
    let key = "CMAKE_PROJECT_NAME:"@;
    let t = text::trim_of(line);
    if text::begins_with(t, key) {
        text_laws::law_trimming_takes_white_space(line);
        let (before, after) = choose|before: Seq<char>, after: Seq<char>|
            text_laws::is_blank(before) && text_laws::is_blank(after) && line == #[trigger] (before
                + text::trim_of(line) + after);
        let rest = t.skip(key.len() as int);
        assert(t =~= key + rest);
        assert(line =~= before + key + (rest + after));
        text_laws::law_containing(line, key);
    }
}

/// The name of the project is what the first line about it in the cache gives.
pub proof fn law_project_name_is_read(
    cache: &str,
    r: Option<String>,
    i: int,
    name: Seq<char>,
)
    requires
        call_ensures(cmake_configure::parse_cmake_project_name_from_cache, (cache,), r),
        0 <= i < text::lines_of(cache@).len(),
        is_name_line(text::lines_of(cache@)[i], name),
        name.len() > 0,
        !text::is_space(name[0]) && !text::is_space(name.last()),
        name[0] != '"' && name.last() != '"',
        forall|j: int|
            0 <= j < i ==> !text::contains_text(
                #[trigger] text::lines_of(cache@)[j],
                "CMAKE_PROJECT_NAME:"@,
            ),
    ensures
        r matches Some(read) && read@ == name,
{
    lemma_first_name(text::lines_of(cache@), i, name);
}

proof fn lemma_first_name(lines: Seq<Seq<char>>, i: int, name: Seq<char>)
    requires
        0 <= i < lines.len(),
        is_name_line(lines[i], name),
        name.len() > 0,
        !text::is_space(name[0]) && !text::is_space(name.last()),
        name[0] != '"' && name.last() != '"',
        forall|j: int|
            0 <= j < i ==> !text::contains_text(#[trigger] lines[j], "CMAKE_PROJECT_NAME:"@),
    ensures
        cmake_configure::first_project_name(lines) == Some(name),
    decreases lines.len(),
{
    let front = lines.drop_last();
    if i < front.len() {
        assert forall|j: int| 0 <= j < i implies !text::contains_text(
            #[trigger] front[j],
            "CMAKE_PROJECT_NAME:"@,
        ) by {
            assert(front[j] == lines[j]);
        }
        assert(front[i] == lines[i]);
        lemma_first_name(front, i, name);
    } else {
        lemma_name_line(lines[i], name);
        assert forall|j: int| 0 <= j < front.len() implies !text::contains_text(
            #[trigger] front[j],
            "CMAKE_PROJECT_NAME:"@,
        ) by {
            assert(front[j] == lines[j]);
        }
        lemma_no_name(front);
    }
}

proof fn lemma_no_name(lines: Seq<Seq<char>>)
    requires
        forall|j: int|
            0 <= j < lines.len() ==> !text::contains_text(
                #[trigger] lines[j],
                "CMAKE_PROJECT_NAME:"@,
            ),
    ensures
        cmake_configure::first_project_name(lines) is None,
    decreases lines.len(),
{
    if lines.len() > 0 {
        let front = lines.drop_last();
        assert forall|j: int| 0 <= j < front.len() implies !text::contains_text(
            #[trigger] front[j],
            "CMAKE_PROJECT_NAME:"@,
        ) by {
            assert(front[j] == lines[j]);
        }
        lemma_no_name(front);
        assert(!text::contains_text(lines[lines.len() - 1], "CMAKE_PROJECT_NAME:"@));
        lemma_other_line(lines.last());
    }
}

/// `old_dev` is the user's preset for the repository: the first of its name, or a new one.
pub open spec fn is_old_preset(user: Seq<PresetView>, old_dev: PresetView) -> bool {
    ||| exists|i: int|
        0 <= i < user.len() && #[trigger] user[i] == old_dev && old_dev.name
            == "multi_repo_dev_config"@ && forall|j: int|
            0 <= j < i ==> (#[trigger] user[j]).name != "multi_repo_dev_config"@
    ||| old_dev == cmake_presets::named_preset("multi_repo_dev_config"@) && forall|j: int|
        0 <= j < user.len() ==> (#[trigger] user[j]).name != "multi_repo_dev_config"@
}

proof fn lemma_old_preset(user: Seq<PresetView>, old_dev: PresetView)
    requires
        is_old_preset(user, old_dev),
    ensures
        ({
            let (list, dev) = cmake_configure::with_dev_preset(user);
            list[dev] == old_dev
        }),
{
    lemma_named(user, "multi_repo_dev_config"@);
    match cmake_configure::first_preset_named(user, "multi_repo_dev_config"@) {
        Some(k) => {
            assert(user[k].name == "multi_repo_dev_config"@);
            let i = choose|i: int|
                0 <= i < user.len() && #[trigger] user[i] == old_dev && old_dev.name
                    == "multi_repo_dev_config"@ && forall|j: int|
                    0 <= j < i ==> (#[trigger] user[j]).name != "multi_repo_dev_config"@;
            if i < k {
                assert(user[i].name != "multi_repo_dev_config"@);
            } else if k < i {
                assert(user[k].name != "multi_repo_dev_config"@);
            }
        },
        None => {},
    }
}

/// A repository can be configured exactly where what its presets inherit can be filled in, one of
/// them fits, and the one to build on has a generator and names where to build and where to install
/// in a way that leads from the root of the repository.
pub proof fn law_fitting_presets_can_be_configured(
    context: &PathContext,
    info: &CMakeConfigureInfo,
    presets: CMakePresets,
    user_presets: CMakePresets,
    dependencies: &Vec<CMakeDependencyInfo>,
    last: &Option<CMakeConfigureFingerprint>,
    preferred: Option<int>,
    base: int,
    old_dev: PresetView,
    r: Result<ConfigurePlan, PresetError>,
)
    requires
        call_ensures(
            cmake_configure::cmake_configure,
            (context, info, presets, user_presets, dependencies, last),
            r,
        ),
    ensures
        ({
            let repo = cmake_presets::preset_views(presets.configure_presets@);
            let user = cmake_presets::preset_views(user_presets.configure_presets@);
            let all = user.filter(|p: PresetView| p.name != "multi_repo_dev_config"@) + repo;
            match cmake_presets::expand_first(all, all.len() as int) {
                None => r is Err,
                Some(candidates) => {
                    &&& (forall|j: int|
                        0 <= j < candidates.len() ==> !fits(
                            #[trigger] candidates[j],
                            info.build_config@,
                            info.cmake_generator_keyword@,
                        )) ==> r is Err
                    &&& is_base(
                        candidates,
                        info.build_config@,
                        info.cmake_generator_keyword@,
                        preferred,
                        base,
                    ) && is_preferred(candidates, old_dev, preferred) && is_old_preset(
                        user,
                        old_dev,
                    ) ==> (r is Ok <==> candidates[base].generator is Some
                        && candidates[base].binary_dir is Some && installs_to(candidates[base])
                        is Some && cmake_configure::repo_relative(
                        *context,
                        info.repo_path@,
                        candidates[base].binary_dir->0,
                        "binaryDir"@,
                    ) is Ok && cmake_configure::repo_relative(
                        *context,
                        info.repo_path@,
                        installs_to(candidates[base])->0,
                        "CMAKE_INSTALL_PREFIX"@,
                    ) is Ok)
                },
            }
        }),
{
    let repo = cmake_presets::preset_views(presets.configure_presets@);
    let user = cmake_presets::preset_views(user_presets.configure_presets@);
    let all = cmake_configure::own_presets(user) + repo;
    lemma_own_presets(user);
    if let Some(candidates) = cmake_presets::expand_first(all, all.len() as int) {
        let (list, dev) = cmake_configure::with_dev_preset(user);
        let found = cmake_configure::preferred_base(candidates, list[dev]);
        lemma_base(candidates, info.build_config@, info.cmake_generator_keyword@, found);
        if is_base(
            candidates,
            info.build_config@,
            info.cmake_generator_keyword@,
            preferred,
            base,
        ) && is_preferred(candidates, old_dev, preferred) && is_old_preset(user, old_dev) {
            lemma_old_preset(user, old_dev);
            if old_dev.inherits is Some && old_dev.inherits->0.len() > 0 {
                lemma_named(candidates, old_dev.inherits->0[0]);
            }
            lemma_one_preferred(candidates, old_dev, preferred);
            assert(preferred == found);
            let chosen = cmake_configure::base_preset(
                candidates,
                info.build_config@,
                info.cmake_generator_keyword@,
                found,
            );
            assert(chosen == Some(base)) by {
                if chosen is None {
                    assert(!fits(
                        candidates[base],
                        info.build_config@,
                        info.cmake_generator_keyword@,
                    ));
                } else {
                    let i = chosen->0;
                    if i < base {
                        assert(fits(
                            candidates[i],
                            info.build_config@,
                            info.cmake_generator_keyword@,
                        ));
                    } else if base < i {
                        assert(fits(
                            candidates[base],
                            info.build_config@,
                            info.cmake_generator_keyword@,
                        ));
                    }
                }
            }
        }
    }
}

proof fn lemma_one_preferred(
    presets: Seq<PresetView>,
    dev: PresetView,
    preferred: Option<int>,
)
    requires
        is_preferred(presets, dev, preferred),
    ensures
        cmake_configure::preferred_base(presets, dev) == preferred,
{
    if dev.inherits is Some && dev.inherits->0.len() > 0 {
        let name = dev.inherits->0[0];
        lemma_named(presets, name);
        match (cmake_configure::first_preset_named(presets, name), preferred) {
            (Some(i), Some(k)) => {
                if i < k {
                    assert(presets[i].name != name);
                } else if k < i {
                    assert(presets[k].name != name);
                }
            },
            (Some(i), None) => {
                assert(presets[i].name == name);
            },
            (None, Some(k)) => {
                assert(presets[k].name != name);
            },
            (None, None) => {},
        }
    }
}

/// What configuring gave is told with absolute directories below the repository, and under the
/// name that the cache gives the project; there is nothing where it gives none.
pub proof fn law_configured_directories_are_absolute(
    context: &PathContext,
    repo_path: &str,
    binary_dir: &str,
    install_dir: &str,
    generator: String,
    cache: &str,
    r: Option<CMakeConfigureOutput>,
)
    requires
        call_ensures(
            cmake_configure::cmake_configure_output,
            (context, repo_path, binary_dir, install_dir, generator, cache),
            r,
        ),
    ensures
        r matches Some(output) ==> {
            &&& output.cmake_binary_dir@ == context.absolute(
                paths::joined_path(context.style_view(), repo_path@, binary_dir@),
            )
            &&& output.install_prefix@ == context.absolute(
                paths::joined_path(context.style_view(), repo_path@, install_dir@),
            )
            &&& output.cmake_generator == generator
            &&& cmake_configure::first_project_name(text::lines_of(cache@)) == Some(
                output.cmake_pkg_name@,
            )
        },
        r is None ==> cmake_configure::first_project_name(text::lines_of(cache@)) is None,
{
}

/// A directory with a macro of the environment is refused as such, and one with another macro that
/// is left over too; both are told with the field and what stands there.
pub proof fn law_macros_in_directories_are_refused(
    context: &PathContext,
    source_dir: &str,
    value: &str,
    field: &str,
    expanded: &str,
    left_over: bool,
    r: Result<String, PresetError>,
)
    requires
        expanded@ == text::replace_of(value@, "${sourceDir}"@, context.absolute(source_dir@)),
        call_ensures(cmake_configure::contains_preset_macro, (expanded,), left_over),
        call_ensures(
            cmake_configure::resolve_repo_relative_preset_path,
            (context, source_dir, value, field),
            r,
        ),
    ensures
        ({
            let environment = text::contains_text(value@, "$env{"@) || text::contains_text(
                value@,
                "$penv{"@,
            );
            &&& environment ==> (r matches Err(e) && e@ == (PresetFault::EnvironmentMacro {
                field: field@,
                value: value@,
            }))
            &&& !environment && left_over ==> (r matches Err(e) && e@ == (
            PresetFault::UnresolvedMacro { field: field@, value: value@ }))
            &&& r is Ok ==> !environment && !left_over
        }),
{
}

} // verus!
