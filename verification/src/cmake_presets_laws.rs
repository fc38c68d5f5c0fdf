//! What holds of presets: what they inherit from one another.

use crate::cmake_presets::{
    self, CMakePresets, CacheValueView, ConfigurePreset, EncodingError, PresetView, StringOrVec,
};
use crate::text_laws;
use vstd::prelude::*;

verus! {

/// Preset `p` is the last one with the name.
pub open spec fn is_last_named(presets: Seq<PresetView>, name: Seq<char>, p: int) -> bool {
    &&& 0 <= p < presets.len()
    &&& presets[p].name == name
    &&& forall|q: int| p < q < presets.len() ==> (#[trigger] presets[q]).name != name
}

proof fn lemma_last_named(presets: Seq<PresetView>, name: Seq<char>)
    ensures
        match cmake_presets::preset_named(presets, name) {
            Some(p) => is_last_named(presets, name, p),
            None => forall|q: int| 0 <= q < presets.len() ==> (#[trigger] presets[q]).name != name,
        },
        forall|p: int| #[trigger]
            is_last_named(presets, name, p) <==> cmake_presets::preset_named(presets, name) == Some(
                p,
            ),
    decreases presets.len(),
{
    if presets.len() > 0 {
        let front = presets.drop_last();
        lemma_last_named(front, name);
        assert(presets[presets.len() - 1] == presets.last());
        assert forall|q: int| 0 <= q < front.len() implies #[trigger] presets[q] == front[q] by {}
        match cmake_presets::preset_named(presets, name) {
            Some(p) => {
                if p < front.len() {
                    assert(is_last_named(front, name, p));
                    assert forall|q: int| p < q < presets.len() implies (
                    #[trigger] presets[q]).name != name by {
                        if q < front.len() {
                            assert(front[q].name != name);
                        }
                    }
                }
                assert(is_last_named(presets, name, p));
                assert forall|q: int| #[trigger] is_last_named(presets, name, q) implies q == p by {
                    if q < p {
                        assert(presets[p].name != name);
                    } else if p < q {
                        assert(presets[q].name != name);
                    }
                }
            },
            None => {
                assert forall|q: int| 0 <= q < presets.len() implies (#[trigger] presets[q]).name
                    != name by {
                    if q < front.len() {
                        assert(front[q].name != name);
                    }
                }
            },
        }
    }
}

/// What the last preset with a name has; `None` where there is none, or it has nothing.
pub open spec fn of_parent<T>(
    presets: Seq<PresetView>,
    name: Seq<char>,
    get: spec_fn(PresetView) -> Option<T>,
) -> Option<T> {
    if exists|p: int| is_last_named(presets, name, p) {
        get(presets[choose|p: int| is_last_named(presets, name, p)])
    } else {
        None
    }
}

/// `r` is what the first parent that has anything has, or nothing where none has.
pub open spec fn is_first_given<T>(
    presets: Seq<PresetView>,
    parents: Seq<Seq<char>>,
    get: spec_fn(PresetView) -> Option<T>,
    r: Option<T>,
) -> bool {
    ||| r is None && forall|k: int|
        0 <= k < parents.len() ==> of_parent(presets, #[trigger] parents[k], get) is None
    ||| r is Some && exists|k: int|
        0 <= k < parents.len() && of_parent(presets, #[trigger] parents[k], get) == r
            && forall|j: int|
            0 <= j < k ==> of_parent(presets, #[trigger] parents[j], get) is None
}

/// The value of a variable of a preset.
pub open spec fn variable_of(preset: PresetView, key: Seq<char>) -> Option<CacheValueView> {
    if preset.variables is Some && preset.variables->0.contains_key(key) {
        Some(preset.variables->0[key])
    } else {
        None
    }
}

/// Preset `i` has its own after the parents were looked at, and what it lacks from the first of
/// its parents that has it; what presets do not inherit is as it was.
pub open spec fn inherits_right(
    before: Seq<PresetView>,
    after: Seq<PresetView>,
    i: int,
    key: Seq<char>,
) -> bool {
    let own = before[i];
    let has = after[i];
    let parents = match own.inherits {
        Some(list) => list,
        None => Seq::empty(),
    };
    &&& has.name == own.name
    &&& has.inherits == own.inherits
    &&& has.hidden == own.hidden
    &&& has.extra == own.extra
    &&& own.generator is Some ==> has.generator == own.generator
    &&& own.binary_dir is Some ==> has.binary_dir == own.binary_dir
    &&& variable_of(own, key) is Some ==> variable_of(has, key) == variable_of(own, key)
    &&& own.generator is None ==> is_first_given(
        after,
        parents,
        |p: PresetView| p.generator,
        has.generator,
    )
    &&& own.binary_dir is None ==> is_first_given(
        after,
        parents,
        |p: PresetView| p.binary_dir,
        has.binary_dir,
    )
    &&& variable_of(own, key) is None ==> is_first_given(
        after,
        parents,
        |p: PresetView| variable_of(p, key),
        variable_of(has, key),
    )
}

proof fn lemma_of_parent<T>(
    presets: Seq<PresetView>,
    name: Seq<char>,
    get: spec_fn(PresetView) -> Option<T>,
)
    ensures
        of_parent(presets, name, get) == match cmake_presets::preset_named(presets, name) {
            Some(p) => get(presets[p]),
            None => None,
        },
{
    lemma_last_named(presets, name);
    if let Some(p) = cmake_presets::preset_named(presets, name) {
        assert(is_last_named(presets, name, p));
    }
}

proof fn lemma_first_given(
    presets: Seq<PresetView>,
    parents: Seq<Seq<char>>,
    key: Seq<char>,
    k: int,
)
    requires
        0 <= k <= parents.len(),
    ensures
        is_first_given(
            presets,
            parents.take(k),
            |p: PresetView| p.generator,
            cmake_presets::first_generator(presets, parents, k),
        ),
        is_first_given(
            presets,
            parents.take(k),
            |p: PresetView| p.binary_dir,
            cmake_presets::first_binary_dir(presets, parents, k),
        ),
        is_first_given(
            presets,
            parents.take(k),
            |p: PresetView| variable_of(p, key),
            cmake_presets::first_value(presets, parents, key, k),
        ),
    decreases k,
{
    if k > 0 {
        lemma_first_given(presets, parents, key, k - 1);
        lemma_given_next(
            presets,
            parents,
            k,
            |p: PresetView| p.generator,
            cmake_presets::first_generator(presets, parents, k - 1),
            cmake_presets::first_generator(presets, parents, k),
        );
        lemma_given_next(
            presets,
            parents,
            k,
            |p: PresetView| p.binary_dir,
            cmake_presets::first_binary_dir(presets, parents, k - 1),
            cmake_presets::first_binary_dir(presets, parents, k),
        );
        lemma_given_next(
            presets,
            parents,
            k,
            |p: PresetView| variable_of(p, key),
            cmake_presets::first_value(presets, parents, key, k - 1),
            cmake_presets::first_value(presets, parents, key, k),
        );
    }
}

proof fn lemma_given_next<T>(
    presets: Seq<PresetView>,
    parents: Seq<Seq<char>>,
    k: int,
    get: spec_fn(PresetView) -> Option<T>,
    was: Option<T>,
    now: Option<T>,
)
    requires
        0 < k <= parents.len(),
        is_first_given(presets, parents.take(k - 1), get, was),
        now == if was is Some {
            was
        } else {
            match cmake_presets::preset_named(presets, parents[k - 1]) {
                Some(p) => get(presets[p]),
                None => None,
            }
        },
    ensures
        is_first_given(presets, parents.take(k), get, now),
{
    let some = parents.take(k - 1);
    let more = parents.take(k);
    lemma_of_parent(presets, parents[k - 1], get);
    assert forall|j: int| 0 <= j < k - 1 implies #[trigger] more[j] == some[j] by {}
    assert(more[k - 1] == parents[k - 1]);
    if was is Some {
        let m = choose|m: int|
            0 <= m < some.len() && of_parent(presets, #[trigger] some[m], get) == was
                && forall|j: int|
                0 <= j < m ==> of_parent(presets, #[trigger] some[j], get) is None;
        assert(of_parent(presets, more[m], get) == was);
        assert forall|j: int| 0 <= j < m implies of_parent(presets, #[trigger] more[j], get)
            is None by {
            assert(some[j] == more[j]);
        }
    } else {
        assert forall|j: int| 0 <= j < k - 1 implies of_parent(presets, #[trigger] more[j], get)
            is None by {
            assert(some[j] == more[j]);
        }
    }
}

/// Every preset ranks above the presets that its parents' names lead to.
pub open spec fn ranks(presets: Seq<PresetView>, rank: spec_fn(int) -> nat) -> bool {
    forall|i: int, k: int, p: int|
        #![trigger is_last_named(presets, presets[i].inherits->0[k], p)]
        0 <= i < presets.len() && presets[i].inherits is Some && 0 <= k
            < presets[i].inherits->0.len() && is_last_named(
            presets,
            presets[i].inherits->0[k],
            p,
        ) ==> rank(p) < rank(i)
}

/// Presets that do not inherit from one another in a circle come to have what they inherit: each
/// field that they lack themselves from the first of their parents that has it. Of presets with
/// the same name the last is the parent.
pub proof fn law_presets_inherit(rank: spec_fn(int) -> nat)
    ensures
        forall|c: &mut Vec<ConfigurePreset>, r: bool| #[trigger]
            call_ensures(cmake_presets::expand_cmake_preset_inheritance, (c,), r)
                && ranks(cmake_presets::preset_views(c@), rank) && (forall|i: int|
                0 <= i < c@.len() ==> !(#[trigger] c@[i]).has_expanded && rank(i) < c@.len()) ==> {
                &&& r
                &&& final(c)@.len() == c@.len()
                &&& forall|i: int, key: Seq<char>|
                    0 <= i < c@.len() ==> #[trigger] inherits_right(
                        cmake_presets::preset_views(c@),
                        cmake_presets::preset_views(final(c)@),
                        i,
                        key,
                    )
            },
{
    assert forall|c: &mut Vec<ConfigurePreset>, r: bool| #[trigger]
        call_ensures(cmake_presets::expand_cmake_preset_inheritance, (c,), r)
            && ranks(cmake_presets::preset_views(c@), rank) && (forall|i: int|
            0 <= i < c@.len() ==> !(#[trigger] c@[i]).has_expanded && rank(i)
                < c@.len()) implies {
        &&& r
        &&& final(c)@.len() == c@.len()
        &&& forall|i: int, key: Seq<char>|
            0 <= i < c@.len() ==> #[trigger] inherits_right(
                cmake_presets::preset_views(c@),
                cmake_presets::preset_views(final(c)@),
                i,
                key,
            )
    } by {
        let before = cmake_presets::preset_views(c@);
        let after = cmake_presets::preset_views(final(c)@);
        assert forall|i: int| 0 <= i < before.len() implies !(#[trigger] before[i]).has_expanded
            && rank(i) < before.len() by {
            assert(!c@[i].has_expanded);
        }
        assert forall|i: int| 0 <= i < before.len() implies #[trigger] rank(i) < before.len() by {
            assert(!before[i].has_expanded);
        }
        lemma_ranked(before, rank);
        cmake_presets::law_ranked_presets_expand(before, rank);
        cmake_presets::law_own_fields_win(before);
        assert(after.len() == final(c)@.len());
        assert forall|i: int, key: Seq<char>| 0 <= i < c@.len() implies #[trigger] inherits_right(
            before,
            after,
            i,
            key,
        ) by {
            cmake_presets::law_first_parent_with_a_field_gives_it(before, rank, i, key);
            let parents = cmake_presets::parents_of(before[i]);
            lemma_first_given(after, parents, key, parents.len() as int);
            assert(parents.take(parents.len() as int) =~= parents);
            assert(cmake_presets::preset_keeps(before[i], after[i]));
            assert(cmake_presets::value_in(before[i], key) == variable_of(before[i], key));
            assert(cmake_presets::value_in(after[i], key) == variable_of(after[i], key));
        }
    }
}

proof fn lemma_ranked(presets: Seq<PresetView>, rank: spec_fn(int) -> nat)
    requires
        ranks(presets, rank),
    ensures
        cmake_presets::is_ranked(presets, rank),
{
    assert forall|i: int, p: int|
        0 <= i < presets.len() && #[trigger] cmake_presets::inherits_from(
            presets,
            i,
            p,
        ) implies rank(p) < rank(i) by {
        let parents = presets[i].inherits->0;
        let k = choose|k: int|
            0 <= k < parents.len() && cmake_presets::preset_named(presets, #[trigger] parents[k])
                == Some(p);
        lemma_last_named(presets, parents[k]);
        assert(is_last_named(presets, presets[i].inherits->0[k], p));
    }
}

/// The presets of the user are taken as they are, but for the version of the others where they
/// have none.
pub proof fn law_user_presets_are_taken(
    presets: CMakePresets,
    user: CMakePresets,
    r: (CMakePresets, CMakePresets),
)
    requires
        call_ensures(cmake_presets::parse_cmake_presets, (presets, Some(user)), r),
    ensures
        r.0 == presets,
        r.1.configure_presets == user.configure_presets,
        r.1.build_presets == user.build_presets,
        r.1.extra == user.extra,
        r.1.version == if user.version == 0 {
            presets.version
        } else {
            user.version
        },
{
}

/// Bytes hold a character beyond ASCII, the space that does not break aside.
pub open spec fn is_beyond_ascii(bytes: Seq<u8>) -> bool {
    exists|i: int| 0 <= i < bytes.len() && #[trigger] bytes[i] >= 0x80 && bytes[i] != 0xa0
}

/// A file of up to two gigabytes without escapes, or with characters beyond ASCII, is read in the
/// character set that is found in it, or in UTF-8 where that is not known.
pub proof fn law_files_are_read_in_their_encoding(
    bytes: &Vec<u8>,
    r: Result<(String, bool), EncodingError>,
)
    requires
        call_ensures(cmake_presets::read_json_file_to_string, (bytes,), r),
        bytes@.len() <= 0x7fff_ffff,
        bytes@.len() <= isize::MAX / 8,
        !bytes@.contains(0x1b) || is_beyond_ascii(bytes@),
    ensures
        r matches Ok(found) && (found.0@, found.1) == match cmake_presets::decoded_by_label(
            cmake_presets::detected_charset(bytes@),
            bytes@,
        ) {
            Some(decoded) => decoded,
            None => cmake_presets::decoded_as_utf8(bytes@),
        },
{
    if is_beyond_ascii(bytes@) {
        let i = choose|i: int|
            0 <= i < bytes@.len() && #[trigger] bytes@[i] >= 0x80 && bytes@[i] != 0xa0;
        assert(cmake_presets::is_high(bytes@[i]));
    }
}

/// A file with escapes and nothing else beside ASCII is read in the character set that the escapes
/// mark, or refused where they mark none.
pub proof fn law_escapes_mark_the_encoding(
    bytes: &Vec<u8>,
    r: Result<(String, bool), EncodingError>,
)
    requires
        call_ensures(cmake_presets::read_json_file_to_string, (bytes,), r),
        bytes@.len() <= 0x7fff_ffff,
        bytes@.len() <= isize::MAX / 8,
        bytes@.contains(0x1b),
        !is_beyond_ascii(bytes@),
    ensures
        ({
            let label = cmake_presets::charset_past_escapes(bytes@, 0x80);
            let marked = label == "HZ-GB-2312"@ || exists|rest: Seq<char>|
                label == #[trigger] ("ISO-2022-"@ + rest);
            &&& r is Ok <==> marked
            &&& r matches Ok(found) ==> (found.0@, found.1)
                == match cmake_presets::decoded_by_label(label, bytes@) {
                Some(decoded) => decoded,
                None => cmake_presets::decoded_as_utf8(bytes@),
            }
        }),
{
    let label = cmake_presets::charset_past_escapes(bytes@, 0x80);
    text_laws::law_containing(label, "ISO-2022-"@);
    assert forall|i: int| 0 <= i < bytes@.len() implies !cmake_presets::is_high(
        #[trigger] bytes@[i],
    ) by {}
}

/// A new preset has nothing but its name.
pub proof fn law_new_presets_are_empty(name: &str, r: ConfigurePreset)
    requires
        call_ensures(ConfigurePreset::new_with_name, (name,), r),
    ensures
        r@.name == name@,
        r@.inherits is None,
        r@.generator is None,
        r@.binary_dir is None,
        r@.variables is None,
        r@.hidden is None,
        r@.extra.len() == 0,
        !r@.has_expanded,
{
}

/// One parent is written by itself or in a list, and several in a list; all count, in their order.
pub proof fn law_parents_are_read(written: Option<StringOrVec>, r: Option<Vec<String>>)
    requires
        call_ensures(cmake_presets::inherits_of, (written,), r),
    ensures
        r is None <==> written is None,
        written matches Some(StringOrVec::One(s)) ==> (r matches Some(list) && list@ == seq![s]),
        written matches Some(StringOrVec::Many(v)) ==> (r matches Some(list) && list@ == v@),
{
}

} // verus!
