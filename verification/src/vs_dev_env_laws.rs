//! What holds of environments: how their variables are found, read and put in order.

use crate::maps;
use crate::paths::{self, PathStyle};
use crate::text;
use crate::text_laws;
use crate::vs_dev_env::{self, Environment, EnvironmentView, HostArchError, Utf16Error};
use vstd::prelude::*;

verus! {

/// The variable differs from the name at most in the case of ASCII letters.
pub open spec fn is_like(env: EnvironmentView, name: Seq<char>, key: Seq<char>) -> bool {
    env.contains_key(key) && text::same_ignoring_ascii_case(key, name)
}

/// The name stands for the variable: it is the first of those that are like it.
pub open spec fn stands_for(env: EnvironmentView, name: Seq<char>, key: Seq<char>) -> bool {
    &&& is_like(env, name, key)
    &&& forall|other: Seq<char>| #[trigger]
        is_like(env, name, other) ==> other == key || text::text_less(key, other)
}

proof fn lemma_first_like(keys: Seq<Seq<char>>, name: Seq<char>)
    ensures
        match vs_dev_env::first_like(keys, name) {
            Some(i) => 0 <= i < keys.len() && text::same_ignoring_ascii_case(keys[i], name)
                && forall|j: int|
                0 <= j < i ==> !text::same_ignoring_ascii_case(#[trigger] keys[j], name),
            None => forall|j: int|
                0 <= j < keys.len() ==> !text::same_ignoring_ascii_case(
                    #[trigger] keys[j],
                    name,
                ),
        },
    decreases keys.len(),
{
    if keys.len() > 0 {
        let front = keys.drop_last();
        lemma_first_like(front, name);
        assert forall|j: int| 0 <= j < front.len() implies #[trigger] keys[j] == front[j] by {}
        assert forall|j: int|
            0 <= j < front.len() && vs_dev_env::first_like(front, name)
                is None implies !text::same_ignoring_ascii_case(#[trigger] keys[j], name) by {
            assert(front[j] == keys[j]);
        }
        if let Some(i) = vs_dev_env::first_like(front, name) {
            assert(keys[i] == front[i]);
            assert forall|j: int| 0 <= j < i implies !text::same_ignoring_ascii_case(
                #[trigger] keys[j],
                name,
            ) by {
                assert(front[j] == keys[j]);
            }
        }
    }
}

proof fn lemma_variable_like(env: EnvironmentView, name: Seq<char>)
    requires
        env.dom().finite(),
    ensures
        forall|key: Seq<char>| #[trigger]
            stands_for(env, name, key) <==> vs_dev_env::variable_like(env, name) == Some(key),
        vs_dev_env::variable_like(env, name) is None ==> forall|key: Seq<char>|
            !#[trigger] is_like(env, name, key),
{
    let keys = maps::ascending_keys(env);
    maps::lemma_keys_of(env);
    lemma_first_like(keys, name);
    assert forall|key: Seq<char>| #[trigger] is_like(env, name, key) implies keys.contains(key) by {
        assert(keys.to_set().contains(key));
    }
    match vs_dev_env::first_like(keys, name) {
        Some(i) => {
            assert(keys.to_set().contains(keys[i]));
            assert(is_like(env, name, keys[i]));
            assert forall|other: Seq<char>| #[trigger] is_like(env, name, other) implies other
                == keys[i] || text::text_less(keys[i], other) by {
                let j = keys.index_of(other);
                if j < i {
                    assert(!text::same_ignoring_ascii_case(keys[j], name));
                } else if j > i {
                    assert(text::text_less(keys[i], keys[j]));
                }
            }
            assert(stands_for(env, name, keys[i]));
            assert forall|key: Seq<char>| #[trigger] stands_for(env, name, key) implies key
                == keys[i] by {
                text::lemma_text_less_total(key, keys[i]);
                assert(is_like(env, name, key));
            }
        },
        None => {
            assert forall|key: Seq<char>| !#[trigger] is_like(env, name, key) by {
                if is_like(env, name, key) {
                    let j = keys.index_of(key);
                    assert(!text::same_ignoring_ascii_case(keys[j], name));
                }
            }
        },
    }
}

/// A name gives the value of the variable it stands for, and nothing exactly where no variable is
/// like it.
pub proof fn law_variables_are_found(env: &Environment, name: &str, r: Option<String>)
    requires
        call_ensures(vs_dev_env::get_env_ignore_ascii_case, (env, name), r),
    ensures
        r is None <==> forall|key: Seq<char>| !#[trigger] is_like(env@, name@, key),
        forall|key: Seq<char>| #[trigger]
            stands_for(env@, name@, key) ==> (r matches Some(value) && value@ == env@[key]),
{
    maps::lemma_finite_keys(*env);
    lemma_variable_like(env@, name@);
    if let Some(key) = vs_dev_env::variable_like(env@, name@) {
        assert(stands_for(env@, name@, key));
        assert(is_like(env@, name@, key));
    }
}

/// A variable that is put into an environment is there under its own name, in place of the one
/// that the name stood for; all others stay.
pub proof fn law_variables_are_put(name: String, value: String)
    ensures
        forall|env: &mut Environment| #[trigger]
            call_ensures(vs_dev_env::insert_env_ignore_ascii_case, (env, name, value), ()) ==> {
                &&& final(env)@.contains_key(name@) && final(env)@[name@] == value@
                &&& forall|key: Seq<char>|
                    #![trigger final(env)@.contains_key(key)]
                    #![trigger env@.contains_key(key)]
                    key != name@ ==> {
                        &&& final(env)@.contains_key(key) <==> env@.contains_key(key)
                            && !stands_for(env@, name@, key)
                        &&& final(env)@.contains_key(key) ==> final(env)@[key] == env@[key]
                    }
            },
{
    assert forall|env: &mut Environment| #[trigger]
        call_ensures(vs_dev_env::insert_env_ignore_ascii_case, (env, name, value), ()) implies {
        &&& final(env)@.contains_key(name@) && final(env)@[name@] == value@
        &&& forall|key: Seq<char>|
            #![trigger final(env)@.contains_key(key)]
            #![trigger env@.contains_key(key)]
            key != name@ ==> {
                &&& final(env)@.contains_key(key) <==> env@.contains_key(key) && !stands_for(
                    env@,
                    name@,
                    key,
                )
                &&& final(env)@.contains_key(key) ==> final(env)@[key] == env@[key]
            }
    } by {
        maps::lemma_finite_keys(*env);
        lemma_variable_like(env@, name@);
    }
}

/// The tools for machines with `amd64`, `x64` and `arm64` are those for `x64`, and those for `x86`
/// are their own; other machines are refused. What a 32 bit process is told of the machine counts
/// before what it is told of itself.
pub proof fn law_architectures(
    env: &Environment,
    machine: Option<String>,
    process: Option<String>,
    r: Result<&'static str, HostArchError>,
)
    requires
        call_ensures(
            vs_dev_env::get_env_ignore_ascii_case,
            (env, "PROCESSOR_ARCHITEW6432"),
            machine,
        ),
        call_ensures(
            vs_dev_env::get_env_ignore_ascii_case,
            (env, "PROCESSOR_ARCHITECTURE"),
            process,
        ),
        call_ensures(vs_dev_env::detect_host_arch, (env,), r),
    ensures
        ({
            let told = if machine is Some {
                machine
            } else {
                process
            };
            &&& told is None ==> (r matches Err(HostArchError::Unknown))
            &&& told matches Some(native) ==> {
                let wide = text::same_ignoring_ascii_case(native@, "amd64"@)
                    || text::same_ignoring_ascii_case(native@, "x64"@)
                    || text::same_ignoring_ascii_case(native@, "arm64"@);
                let narrow = text::same_ignoring_ascii_case(native@, "x86"@);
                &&& wide && !narrow ==> (r matches Ok(arch) && arch@ == "x64"@)
                &&& narrow && !wide ==> (r matches Ok(arch) && arch@ == "x86"@)
                &&& !narrow && !wide ==> (r matches Err(HostArchError::Unsupported(s)) && s@
                    == native@)
            }
        }),
{
}

/// The locator is looked for below each directory of programs that the environment names, that for
/// 32 bit programs first.
pub proof fn law_locator_is_looked_for(
    style: &PathStyle,
    env: &Environment,
    narrow: Option<String>,
    wide: Option<String>,
    r: Vec<String>,
)
    requires
        call_ensures(vs_dev_env::get_env_ignore_ascii_case, (env, "ProgramFiles(x86)"), narrow),
        call_ensures(vs_dev_env::get_env_ignore_ascii_case, (env, "ProgramFiles"), wide),
        call_ensures(vs_dev_env::get_vswhere_path, (style, env), r),
    ensures
        ({
            let below = |dir: Seq<char>|
                paths::joined_path(
                    style@,
                    paths::joined_path(
                        style@,
                        paths::joined_path(style@, dir, "Microsoft Visual Studio"@),
                        "Installer"@,
                    ),
                    "vswhere.exe"@,
                );
            text::texts(r@) == match (narrow, wide) {
                (Some(a), Some(b)) => seq![below(a@), below(b@)],
                (Some(a), None) => seq![below(a@)],
                (None, Some(b)) => seq![below(b@)],
                (None, None) => Seq::empty(),
            }
        }),
{
    let below = |dir: Seq<char>|
        paths::joined_path(
            style@,
            paths::joined_path(
                style@,
                paths::joined_path(style@, dir, "Microsoft Visual Studio"@),
                "Installer"@,
            ),
            "vswhere.exe"@,
        );
    assert(text::texts(r@) =~= match (narrow, wide) {
        (Some(a), Some(b)) => seq![below(a@), below(b@)],
        (Some(a), None) => seq![below(a@)],
        (None, Some(b)) => seq![below(b@)],
        (None, None) => Seq::empty(),
    });
}

/// The script is below the installation.
pub proof fn law_script_is_below_the_installation(
    style: &PathStyle,
    installation: &str,
    r: String,
)
    requires
        call_ensures(vs_dev_env::vs_dev_cmd_path, (style, installation), r),
    ensures
        r@ == paths::joined_path(
            style@,
            paths::joined_path(
                style@,
                paths::joined_path(style@, installation@, "Common7"@),
                "Tools"@,
            ),
            "VsDevCmd.bat"@,
        ),
{
}

/// The UTF-16 units of a character.
pub open spec fn units_for(c: char) -> Seq<u16> {
    let n = c as int;
    if n < 0x10000 {
        seq![n as u16]
    } else {
        seq![
            (0xd800 + (n - 0x10000) / 0x400) as u16,
            (0xdc00 + (n - 0x10000) % 0x400) as u16,
        ]
    }
}

/// The UTF-16 units of a text.
pub open spec fn utf16_of(s: Seq<char>) -> Seq<u16>
    decreases s.len(),
{
    if s.len() == 0 {
        Seq::empty()
    } else {
        units_for(s[0]) + utf16_of(s.skip(1))
    }
}

proof fn lemma_units_for(c: char, rest: Seq<u16>)
    ensures
        ({
            let all = units_for(c) + rest;
            let u = all[0] as int;
            if (c as int) < 0x10000 {
                &&& u < 0xd800 || 0xdfff < u
                &&& u as char == c
                &&& all.skip(1) == rest
            } else {
                &&& 0xd800 <= u < 0xdc00
                &&& all.len() > 1
                &&& 0xdc00 <= all[1] <= 0xdfff
                &&& (0x10000 + (u - 0xd800) * 0x400 + (all[1] as int - 0xdc00)) as char == c
                &&& all.skip(2) == rest
            }
        }),
{
    let n = c as int;
    let all = units_for(c) + rest;
    if n < 0x10000 {
        assert(all.skip(1) =~= rest);
    } else {
        assert(all.skip(2) =~= rest);
    }
}

proof fn lemma_utf16(s: Seq<char>)
    ensures
        vs_dev_env::utf16_text(utf16_of(s)) == Some(s),
    decreases s.len(),
{
    if s.len() > 0 {
        lemma_utf16(s.skip(1));
        lemma_units_for(s[0], utf16_of(s.skip(1)));
        assert(s =~= seq![s[0]] + s.skip(1));
    } else {
        assert(s =~= Seq::empty());
    }
}

proof fn lemma_unit(unit: u16, low: u8, high: u8)
    requires
        low == unit % 256,
        high == unit / 256,
    ensures
        (low as int + 256 * high as int) as u16 == unit,
{
}

proof fn lemma_units_of(bytes: Seq<u8>, units: Seq<u16>)
    requires
        are_bytes_of(bytes, units),
    ensures
        vs_dev_env::units_of(bytes) == units,
{
    let read = vs_dev_env::units_of(bytes);
    assert forall|i: int| 0 <= i < units.len() implies #[trigger] read[i] == units[i] by {
        lemma_unit(units[i], bytes[2 * i], bytes[2 * i + 1]);
    }
    assert(read =~= units);
}

/// The bytes hold the units, the low byte of each first.
pub open spec fn are_bytes_of(bytes: Seq<u8>, units: Seq<u16>) -> bool {
    &&& bytes.len() == 2 * units.len()
    &&& forall|i: int|
        0 <= i < units.len() ==> bytes[2 * i] == (#[trigger] units[i]) % 256 && bytes[2 * i + 1]
            == units[i] / 256
}

/// The text whose UTF-16 units the output holds is read from it, without the byte order marks
/// before it; output of an odd length is refused.
pub proof fn law_utf16_output_is_read(
    bytes: &Vec<u8>,
    marks: nat,
    s: Seq<char>,
    r: Result<String, Utf16Error>,
)
    requires
        call_ensures(vs_dev_env::decode_utf16_le, (bytes,), r),
        s.len() > 0 ==> s[0] != '\u{feff}' && s.last() != '\u{feff}',
    ensures
        bytes@.len() % 2 == 1 ==> r is Err,
        are_bytes_of(bytes@, utf16_of(Seq::new(marks, |i: int| '\u{feff}') + s)) ==> (r matches Ok(
            t,
        ) && t@ == s),
{
    let all = Seq::new(marks, |i: int| '\u{feff}') + s;
    let units = utf16_of(all);
    if are_bytes_of(bytes@, units) {
        lemma_units_of(bytes@, units);
        lemma_utf16(all);
        text_laws::law_stripping(marks, '\u{feff}', s);
    }
}

proof fn lemma_with_lines(env: EnvironmentView, lines: Seq<Seq<char>>, n: int)
    requires
        0 < n <= lines.len(),
    ensures
        vs_dev_env::with_lines(env, lines, n) == vs_dev_env::with_lines(
            vs_dev_env::with_line(env, lines[0]),
            lines.skip(1),
            n - 1,
        ),
    decreases n,
{
    if n > 1 {
        lemma_with_lines(env, lines, n - 1);
        assert(lines.skip(1)[n - 2] == lines[n - 1]);
    } else {
        assert(vs_dev_env::with_lines(env, lines, 0) == env);
    }
}

/// A line of output with a name before its first equals sign puts the variable with all that
/// follows it into the environment, and what follows the line is read after that; a line without
/// a name says nothing.
pub proof fn law_output_is_read_line_by_line(
    dump: &str,
    rest: &str,
    name: Seq<char>,
    value: Seq<char>,
    line: Seq<char>,
    base: &Environment,
    changed: &Environment,
    r: Environment,
    after: Environment,
    kept: Environment,
)
    requires
        text::lines_of(dump@) == seq![line] + text::lines_of(rest@),
        text_laws::lacks(name, '='),
        line == name + seq!['='] + value || line == name,
        name.len() > 0 ==> changed@ == vs_dev_env::with_variable(base@, name, value),
        call_ensures(vs_dev_env::parse_env_dump, (dump, base), r),
        call_ensures(vs_dev_env::parse_env_dump, (rest, changed), after),
        call_ensures(vs_dev_env::parse_env_dump, (rest, base), kept),
    ensures
        if name.len() > 0 && line == name + seq!['='] + value {
            r@ == after@
        } else {
            r@ == kept@
        },
        text::lines_of(rest@).len() == 0 ==> kept@ == base@,
{
    let lines = text::lines_of(dump@);
    let others = text::lines_of(rest@);
    text_laws::law_cutting_once(name, '=', value);
    assert(lines[0] == line);
    assert(lines.skip(1) =~= others);
    lemma_with_lines(base@, lines, lines.len() as int);
}

/// Two entries of the search path are the same: slashes and the case of ASCII letters aside.
pub open spec fn are_same_entry(a: Seq<char>, b: Seq<char>) -> bool {
    text::same_ignoring_ascii_case(
        text::replace_of(a, "/"@, "\\"@),
        text::replace_of(b, "/"@, "\\"@),
    )
}

/// The entry at `i` is not empty and the first of its kind.
pub open spec fn is_first_entry(entries: Seq<Seq<char>>, i: int) -> bool {
    &&& text::trim_of(entries[i]).len() > 0
    &&& forall|j: int|
        0 <= j < i ==> !are_same_entry(
            text::trim_of(#[trigger] entries[j]),
            text::trim_of(entries[i]),
        ) || text::trim_of(entries[j]).len() == 0
}

/// The first entries of their kind, in their order.
pub open spec fn first_entries(entries: Seq<Seq<char>>) -> Seq<Seq<char>> {
    Seq::new(entries.len(), |i: int| i).filter(|i: int| is_first_entry(entries, i)).map_values(
        |i: int| text::trim_of(entries[i]),
    )
}

proof fn lemma_first_entries(entries: Seq<Seq<char>>)
    ensures
        vs_dev_env::distinct_entries(entries) == first_entries(entries),
        forall|e: Seq<char>| #[trigger]
            vs_dev_env::entry_keys(vs_dev_env::distinct_entries(entries)).contains(
                vs_dev_env::entry_key(e),
            ) <==> exists|j: int|
                0 <= j < entries.len() && text::trim_of(#[trigger] entries[j]).len() > 0
                    && are_same_entry(text::trim_of(entries[j]), e),
    decreases entries.len(),
{
    let places = Seq::new(entries.len(), |i: int| i);
    let keep = |i: int| is_first_entry(entries, i);
    let get = |i: int| text::trim_of(entries[i]);
    reveal(Seq::filter);
    if entries.len() == 0 {
        assert(places =~= Seq::empty());
        assert(places.filter(keep).map_values(get) =~= Seq::empty());
    } else {
        let n = entries.len() - 1;
        let front = entries.drop_last();
        let entry = text::trim_of(entries.last());
        assert(entries[n] == entries.last());
        lemma_first_entries(front);
        let before = vs_dev_env::distinct_entries(front);
        let fewer = Seq::new(front.len(), |i: int| i);
        let keep_front = |i: int| is_first_entry(front, i);
        let get_front = |i: int| text::trim_of(front[i]);
        assert(places.drop_last() =~= fewer);
        assert forall|i: int| 0 <= i < fewer.len() implies keep(#[trigger] fewer[i]) == keep_front(
            fewer[i],
        ) by {
            assert(front[i] == entries[i]);
            assert forall|j: int| 0 <= j < i implies #[trigger] front[j] == entries[j] by {}
            if is_first_entry(front, i) {
                assert forall|j: int| 0 <= j < i implies !are_same_entry(
                    text::trim_of(#[trigger] entries[j]),
                    text::trim_of(entries[i]),
                ) || text::trim_of(entries[j]).len() == 0 by {
                    assert(front[j] == entries[j]);
                }
            }
        }
        text_laws::lemma_same_filter(fewer, keep, keep_front);
        let some = fewer.filter(keep);
        assert forall|k: int| 0 <= k < some.len() implies 0 <= #[trigger] some[k] < n by {
            assert(some.contains(some[k]));
            text_laws::lemma_filtered(fewer, keep, some[k]);
        }
        assert(some.map_values(get) =~= some.map_values(get_front));
        assert(before == some.map_values(get));
        assert(places.last() == n);
        assert(some.push(n).map_values(get) =~= some.map_values(get).push(entry));
        assert(entry.len() > 0 ==> (vs_dev_env::entry_keys(before).contains(
            vs_dev_env::entry_key(entry),
        ) <==> !keep(n))) by {
            if entry.len() > 0 {
                if vs_dev_env::entry_keys(before).contains(vs_dev_env::entry_key(entry)) {
                    let j = choose|j: int|
                        0 <= j < front.len() && text::trim_of(#[trigger] front[j]).len() > 0
                            && are_same_entry(text::trim_of(front[j]), entry);
                    assert(entries[j] == front[j]);
                } else {
                    assert forall|j: int| 0 <= j < n implies !are_same_entry(
                        text::trim_of(#[trigger] entries[j]),
                        text::trim_of(entries[n]),
                    ) || text::trim_of(entries[j]).len() == 0 by {
                        assert(front[j] == entries[j]);
                    }
                }
            }
        }
        assert(vs_dev_env::distinct_entries(entries) == first_entries(entries));
        let after = vs_dev_env::distinct_entries(entries);
        assert forall|e: Seq<char>| #[trigger]
            vs_dev_env::entry_keys(after).contains(vs_dev_env::entry_key(e)) <==> exists|j: int|
                0 <= j < entries.len() && text::trim_of(#[trigger] entries[j]).len() > 0
                    && are_same_entry(text::trim_of(entries[j]), e) by {
            let key = vs_dev_env::entry_key(e);
            let was = vs_dev_env::entry_keys(before).contains(key);
            if was {
                let k = vs_dev_env::entry_keys(before).index_of(key);
                assert(vs_dev_env::entry_keys(after)[k] == key);
                let j = choose|j: int|
                    0 <= j < front.len() && text::trim_of(#[trigger] front[j]).len() > 0
                        && are_same_entry(text::trim_of(front[j]), e);
                assert(entries[j] == front[j]);
            } else {
                if entry.len() > 0 && are_same_entry(entry, e) {
                    assert(vs_dev_env::entry_key(entry) == key);
                    assert(after == before.push(entry));
                    assert(vs_dev_env::entry_keys(after)[before.len() as int] == key);
                }
                if vs_dev_env::entry_keys(after).contains(key) {
                    let k = vs_dev_env::entry_keys(after).index_of(key);
                    if k < before.len() {
                        assert(vs_dev_env::entry_keys(before)[k] == key);
                    }
                    assert(entries[n] == entries.last());
                }
                if exists|j: int|
                    0 <= j < entries.len() && text::trim_of(#[trigger] entries[j]).len() > 0
                        && are_same_entry(text::trim_of(entries[j]), e) {
                    let j = choose|j: int|
                        0 <= j < entries.len() && text::trim_of(#[trigger] entries[j]).len() > 0
                            && are_same_entry(text::trim_of(entries[j]), e);
                    if j < n {
                        assert(front[j] == entries[j]);
                    }
                }
            }
        }
    }
}

/// The entry leads into Visual Studio, slashes and the case of ASCII letters aside.
pub open spec fn leads_into_visual_studio(entry: Seq<char>) -> bool {
    exists|before: Seq<char>, after: Seq<char>|
        text::ascii_lower_of(text::replace_of(entry, "/"@, "\\"@)) == #[trigger] (before
            + "microsoft visual studio"@ + after)
}

proof fn lemma_entries_where(entries: Seq<Seq<char>>, visual_studio: bool)
    ensures
        vs_dev_env::entries_where(entries, visual_studio) == entries.filter(
            |e: Seq<char>| leads_into_visual_studio(e) == visual_studio,
        ),
    decreases entries.len(),
{
    reveal(Seq::filter);
    if entries.len() > 0 {
        lemma_entries_where(entries.drop_last(), visual_studio);
        text_laws::law_containing(
            vs_dev_env::entry_key(entries.last()),
            "microsoft visual studio"@,
        );
    }
}

/// The search path is put in order: of each kind of entry the first is kept, without white space
/// around it, and those that lead into Visual Studio come before the others; apart from that they
/// keep their order.
pub proof fn law_search_path_is_put_in_order(entries: &Vec<String>, r: Vec<String>)
    requires
        call_ensures(vs_dev_env::prioritize_visual_studio_path_entries, (entries,), r),
    ensures
        ({
            let distinct = first_entries(text::texts(entries@));
            text::texts(r@) == distinct.filter(
                |e: Seq<char>| leads_into_visual_studio(e) == true,
            ) + distinct.filter(|e: Seq<char>| leads_into_visual_studio(e) == false)
        }),
{
    let all = text::texts(entries@);
    lemma_first_entries(all);
    lemma_entries_where(first_entries(all), true);
    lemma_entries_where(first_entries(all), false);
}

/// A search path is replaced under the name `PATH` exactly where there is one, by the entries that
/// were joined, or by itself where they could not be; without one nothing changes.
pub proof fn law_search_path_is_replaced(joined: Option<String>)
    ensures
        forall|env: &mut Environment| #[trigger]
            call_ensures(vs_dev_env::put_search_path, (env, joined), ()) ==> {
                &&& (forall|key: Seq<char>| !#[trigger] is_like(env@, "PATH"@, key))
                    ==> final(env)@ == env@
                &&& forall|key: Seq<char>| #[trigger]
                    stands_for(env@, "PATH"@, key) ==> final(env)@ == env@.remove(key).insert(
                        "PATH"@,
                        match joined {
                            Some(value) => value@,
                            None => env@[key],
                        },
                    )
            },
{
    assert forall|env: &mut Environment| #[trigger]
        call_ensures(vs_dev_env::put_search_path, (env, joined), ()) implies {
        &&& (forall|key: Seq<char>| !#[trigger] is_like(env@, "PATH"@, key)) ==> final(env)@
            == env@
        &&& forall|key: Seq<char>| #[trigger]
            stands_for(env@, "PATH"@, key) ==> final(env)@ == env@.remove(key).insert(
                "PATH"@,
                match joined {
                    Some(value) => value@,
                    None => env@[key],
                },
            )
    } by {
        maps::lemma_finite_keys(*env);
        lemma_variable_like(env@, "PATH"@);
        if let Some(key) = vs_dev_env::variable_like(env@, "PATH"@) {
            assert(stands_for(env@, "PATH"@, key));
            assert(is_like(env@, "PATH"@, key));
        }
    }
}

} // verus!
