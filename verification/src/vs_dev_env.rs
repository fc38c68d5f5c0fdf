//! The environment of the Visual Studio developer tools.

use crate::error::{self, Error};
use crate::maps::{self, TextMap};
use crate::paths::{self, PathStyle};
use crate::text;
use vstd::prelude::*;

verus! {

/// Environment variables by name.
pub type Environment = TextMap<String>;

/// The content of an [`Environment`].
pub type EnvironmentView = Map<Seq<char>, Seq<char>>;

/// Why the architecture of the machine cannot be told.
#[derive(Debug)]
pub enum HostArchError {
    /// No variable names it.
    Unknown,
    /// The tools do not run on it.
    Unsupported(String),
}

/// Why some output is no text.
#[derive(Debug)]
pub enum Utf16Error {
    /// It has this odd number of bytes.
    OddLength(usize),
    /// It holds half of a pair alone.
    Invalid,
}

/// Index of the first key that differs from the name at most in the case of ASCII letters.
pub open spec fn first_like(keys: Seq<Seq<char>>, name: Seq<char>) -> Option<int>
    decreases keys.len(),
{
    if keys.len() == 0 {
        None
    } else {
        match first_like(keys.drop_last(), name) {
            Some(i) => Some(i),
            None => if text::same_ignoring_ascii_case(keys.last(), name) {
                Some(keys.len() - 1)
            } else {
                None
            },
        }
    }
}

/// The variable that a name stands for: the first in order that differs from it at most in the
/// case of ASCII letters.
pub open spec fn variable_like(env: EnvironmentView, name: Seq<char>) -> Option<Seq<char>> {
    let keys = maps::ascending_keys(env);
    match first_like(keys, name) {
        Some(i) => Some(keys[i]),
        None => None,
    }
}

/// The value of the variable that a name stands for.
pub open spec fn value_like(env: EnvironmentView, name: Seq<char>) -> Option<Seq<char>> {
    match variable_like(env, name) {
        Some(k) => Some(env[k]),
        None => None,
    }
}

/// The environment with a variable in place of the one that its name stands for.
pub open spec fn with_variable(
    env: EnvironmentView,
    name: Seq<char>,
    value: Seq<char>,
) -> EnvironmentView {
    match variable_like(env, name) {
        Some(k) => env.remove(k).insert(name, value),
        None => env.insert(name, value),
    }
}

proof fn lemma_first_like_take(keys: Seq<Seq<char>>, name: Seq<char>, n: int)
    requires
        0 <= n <= keys.len(),
        first_like(keys.take(n), name) is Some,
    ensures
        first_like(keys, name) == first_like(keys.take(n), name),
    decreases keys.len() - n,
{
    if n == keys.len() {
        assert(keys.take(n) =~= keys);
    } else {
        assert(keys.take(n + 1).drop_last() =~= keys.take(n));
        lemma_first_like_take(keys, name, n + 1);
    }
}

/// Index of the variable that a name stands for.
fn find_like(env: &Environment, name: &str) -> (r: Option<usize>)
    ensures
        match r {
            Some(i) => i < env.keys().len() && variable_like(env@, name@) == Some(
                env.keys()[i as int],
            ) && env@.contains_key(env.keys()[i as int]),
            None => variable_like(env@, name@) is None,
        },
{
    let n: usize = env.len();
    let ghost keys = env.keys();
    for i in 0..n
        invariant
            n == keys.len(),
            keys == env.keys(),
            keys == maps::ascending_keys(env@),
            first_like(keys.take(i as int), name@) is None,
    {
        assert(keys.take(i + 1).drop_last() =~= keys.take(i as int));
        if text::eq_ignore_ascii_case(env.key_at(i).as_str(), name) {
            proof {
                lemma_first_like_take(keys, name@, i + 1);
            }
            return Some(i);
        }
    }
    assert(keys.take(keys.len() as int) =~= keys);
    None
}

/// The value of the variable that a name stands for.
pub fn get_env_ignore_ascii_case(environment: &Environment, name: &str) -> (r: Option<String>)
    ensures
        text::opt_text(r) == value_like(environment@, name@),
{
    match find_like(environment, name) {
        Some(i) => Some(environment.value_at(i).clone()),
        None => None,
    }
}

/// Puts a variable in place of the one that its name stands for.
pub fn insert_env_ignore_ascii_case(environment: &mut Environment, name: String, value: String)
    ensures
        final(environment)@ == with_variable(old(environment)@, name@, value@),
{
    if let Some(i) = find_like(environment, name.as_str()) {
        let old_name = environment.key_at(i).clone();
        let _ = environment.remove(old_name.as_str());
    }
    environment.insert(name, value);
}

/// The architecture for the tools on a machine whose native architecture is so called.
pub open spec fn tools_arch(native: Seq<char>) -> Option<Seq<char>> {
    if text::same_ignoring_ascii_case(native, "amd64"@) || text::same_ignoring_ascii_case(
        native,
        "x64"@,
    ) {
        Some("x64"@)
    } else if text::same_ignoring_ascii_case(native, "x86"@) {
        Some("x86"@)
    } else if text::same_ignoring_ascii_case(native, "arm64"@) {
        Some("x64"@)
    } else {
        None
    }
}

/// The native architecture of the machine.
pub open spec fn native_arch(env: EnvironmentView) -> Option<Seq<char>> {
    match value_like(env, "PROCESSOR_ARCHITEW6432"@) {
        Some(arch) => Some(arch),
        None => value_like(env, "PROCESSOR_ARCHITECTURE"@),
    }
}

/// The architecture for the tools on this machine.
pub fn detect_host_arch(base_env: &Environment) -> (r: Result<&'static str, HostArchError>)
    ensures
        match native_arch(base_env@) {
            None => r matches Err(e) && e is Unknown,
            Some(native) => match tools_arch(native) {
                Some(arch) => r matches Ok(a) && a@ == arch,
                None => r matches Err(e) && e matches HostArchError::Unsupported(s) && s@
                    == native,
            },
        },
{
    let native = match get_env_ignore_ascii_case(base_env, "PROCESSOR_ARCHITEW6432") {
        Some(native) => native,
        None => match get_env_ignore_ascii_case(base_env, "PROCESSOR_ARCHITECTURE") {
            Some(native) => native,
            None => {
                return Err(HostArchError::Unknown);
            },
        },
    };
    if text::eq_ignore_ascii_case(native.as_str(), "amd64") || text::eq_ignore_ascii_case(
        native.as_str(),
        "x64",
    ) {
        return Ok("x64");
    }
    if text::eq_ignore_ascii_case(native.as_str(), "x86") {
        return Ok("x86");
    }
    if text::eq_ignore_ascii_case(native.as_str(), "arm64") {
        return Ok("x64");
    }
    Err(HostArchError::Unsupported(native))
}

/// The place of the locator of Visual Studio below a directory of programs.
pub open spec fn vswhere_below(style: char, programs: Seq<char>) -> Seq<char> {
    paths::joined_path(
        style,
        paths::joined_path(
            style,
            paths::joined_path(style, programs, "Microsoft Visual Studio"@),
            "Installer"@,
        ),
        "vswhere.exe"@,
    )
}

/// The place of the locator of Visual Studio below a directory of programs.
pub fn vswhere_path(style: &PathStyle, programs: &str) -> (r: String)
    ensures
        r@ == vswhere_below(style@, programs@),
{
    let a = paths::join(style, programs, "Microsoft Visual Studio");
    let b = paths::join(style, a.as_str(), "Installer");
    paths::join(style, b.as_str(), "vswhere.exe")
}

/// The directories of programs that the environment names, those for 32 bit first.
pub open spec fn program_dirs(env: EnvironmentView) -> Seq<Seq<char>> {
    (match value_like(env, "ProgramFiles(x86)"@) {
        Some(dir) => seq![dir],
        None => Seq::empty(),
    }) + (match value_like(env, "ProgramFiles"@) {
        Some(dir) => seq![dir],
        None => Seq::empty(),
    })
}

/// The places where the locator of Visual Studio may be, in the order to look.
pub fn get_vswhere_path(style: &PathStyle, base_env: &Environment) -> (r: Vec<String>)
    ensures
        text::texts(r@) == program_dirs(base_env@).map_values(
            |dir: Seq<char>| vswhere_below(style@, dir),
        ),
{
    let mut out: Vec<String> = Vec::new();
    if let Some(dir) = get_env_ignore_ascii_case(base_env, "ProgramFiles(x86)") {
        text::push_text(&mut out, vswhere_path(style, dir.as_str()));
    }
    if let Some(dir) = get_env_ignore_ascii_case(base_env, "ProgramFiles") {
        text::push_text(&mut out, vswhere_path(style, dir.as_str()));
    }
    assert(text::texts(out@) =~= program_dirs(base_env@).map_values(
        |dir: Seq<char>| vswhere_below(style@, dir),
    ));
    out
}

/// The installation path in the output of the locator; it names none where there is nothing but
/// white space.
pub fn get_vs_install_path(output: &str) -> (r: Option<String>)
    ensures
        text::opt_text(r) == (if text::trim_of(output@).len() == 0 {
            None
        } else {
            Some(text::trim_of(output@))
        }),
{
    let path = text::trim(output);
    if text::is_empty(path.as_str()) {
        None
    } else {
        Some(path)
    }
}

/// The script that sets the environment up, below an installation path.
pub open spec fn vs_dev_cmd_below(style: char, installation: Seq<char>) -> Seq<char> {
    paths::joined_path(
        style,
        paths::joined_path(
            style,
            paths::joined_path(style, installation, "Common7"@),
            "Tools"@,
        ),
        "VsDevCmd.bat"@,
    )
}

/// The script that sets the environment up, below an installation path.
pub fn vs_dev_cmd_path(style: &PathStyle, installation: &str) -> (r: String)
    ensures
        r@ == vs_dev_cmd_below(style@, installation@),
{
    let a = paths::join(style, installation, "Common7");
    let b = paths::join(style, a.as_str(), "Tools");
    paths::join(style, b.as_str(), "VsDevCmd.bat")
}

/// The command line that runs the script and prints the environment.
pub fn vs_dev_command_line(script: &str, host_arch: &str) -> (r: String)
    ensures
        r@ == "call \""@ + script@ + "\" -arch=x64 -host_arch="@ + host_arch@ + " && set"@,
{
    let mut line = "call \"".to_owned();
    line.append(script);
    line.append("\" -arch=x64 -host_arch=");
    line.append(host_arch);
    line.append(" && set");
    line
}

/// The 16 bit units in pairs of bytes, the low byte first.
pub open spec fn units_of(bytes: Seq<u8>) -> Seq<u16> {
    Seq::new(
        (bytes.len() / 2) as nat,
        |i: int| (bytes[2 * i] as int + 256 * bytes[2 * i + 1] as int) as u16,
    )
}

/// The text that UTF-16 units hold.
pub open spec fn utf16_text(units: Seq<u16>) -> Option<Seq<char>>
    decreases units.len(),
{
    if units.len() == 0 {
        Some(Seq::empty())
    } else {
        let u = units[0] as int;
        if u < 0xd800 || 0xdfff < u {
            match utf16_text(units.skip(1)) {
                Some(rest) => Some(seq![u as char] + rest),
                None => None,
            }
        } else if u < 0xdc00 && units.len() > 1 && 0xdc00 <= units[1] && units[1] <= 0xdfff {
            match utf16_text(units.skip(2)) {
                Some(rest) => Some(
                    seq![(0x10000 + (u - 0xd800) * 0x400 + (units[1] as int - 0xdc00)) as char]
                        + rest,
                ),
                None => None,
            }
        } else {
            None
        }
    }
}

/// `String::from_utf16`.
#[verifier::external_body]
fn text_from_utf16(units: &Vec<u16>) -> (r: Option<String>)
    ensures
        text::opt_text(r) == utf16_text(units@),
{
    String::from_utf16(units).ok()
}

/// The text of UTF-16 output with the low byte first, without byte order marks at its start.
pub fn decode_utf16_le(bytes: &Vec<u8>) -> (r: Result<String, Utf16Error>)
    ensures
        match r {
            Ok(s) => bytes@.len() % 2 == 0 && utf16_text(units_of(bytes@)) is Some && s@
                == text::strip_leading(utf16_text(units_of(bytes@))->0, '\u{feff}'),
            Err(Utf16Error::OddLength(n)) => n == bytes@.len() && bytes@.len() % 2 == 1,
            Err(Utf16Error::Invalid) => bytes@.len() % 2 == 0 && utf16_text(units_of(bytes@))
                is None,
        },
{
    if bytes.len() % 2 != 0 {
        return Err(Utf16Error::OddLength(bytes.len()));
    }
    let ghost all = units_of(bytes@);
    let mut units: Vec<u16> = Vec::new();
    for i in 0..bytes.len() / 2
        invariant
            all == units_of(bytes@),
            units@ == all.take(i as int),
    {
        let low: u16 = bytes[2 * i] as u16;
        let high: u16 = bytes[2 * i + 1] as u16;
        units.push(low + 256 * high);
        assert(units@ =~= all.take(i + 1));
    }
    assert(all.take(all.len() as int) =~= all);
    match text_from_utf16(&units) {
        Some(s) => Ok(text::trim_leading(s.as_str(), '\u{feff}')),
        None => Err(Utf16Error::Invalid),
    }
}

/// The environment with what a line of output says: a name, an equals sign and a value. Other
/// lines say nothing.
pub open spec fn with_line(env: EnvironmentView, line: Seq<char>) -> EnvironmentView {
    match text::split_once_of(line, '=') {
        Some((name, value)) => if name.len() == 0 {
            env
        } else {
            with_variable(env, name, value)
        },
        None => env,
    }
}

/// The environment with what the first `n` lines of output say.
pub open spec fn with_lines(env: EnvironmentView, lines: Seq<Seq<char>>, n: int) -> EnvironmentView
    decreases n,
{
    if n <= 0 {
        env
    } else {
        with_line(with_lines(env, lines, n - 1), lines[n - 1])
    }
}

/// A copy of an environment.
pub fn copy_environment(env: &Environment) -> (r: Environment)
    ensures
        r@ == env@,
{
    let mut out: Environment = TextMap::new();
    overlay(&mut out, env);
    assert(out@ =~= env@);
    out
}

/// Puts every variable of `more` in place of the one with its name.
pub fn overlay(env: &mut Environment, more: &Environment)
    ensures
        final(env)@ == old(env)@.union_prefer_right(more@),
{
    let n: usize = more.len();
    let ghost keys = more.keys();
    for i in 0..n
        invariant
            n == keys.len(),
            keys == more.keys(),
            forall|k: Seq<char>| #[trigger] more@.contains_key(k) <==> keys.contains(k),
            forall|k: Seq<char>| #[trigger]
                env@.contains_key(k) <==> old(env)@.contains_key(k) || keys.take(
                    i as int,
                ).contains(k),
            forall|k: Seq<char>|
                env@.contains_key(k) ==> #[trigger] env@[k] == (if keys.take(i as int).contains(k) {
                    more@[k]
                } else {
                    old(env)@[k]
                }),
    {
        let ghost seen = keys.take(i as int);
        let ghost upto = keys.take(i + 1);
        let ghost key = keys[i as int];
        env.insert(more.key_at(i).clone(), more.value_at(i).clone());
        proof {
            assert(upto =~= seen.push(key));
            assert forall|k: Seq<char>| #[trigger] upto.contains(k) <==> seen.contains(k) || k
                == key by {
                if seen.contains(k) {
                    let j = choose|j: int| 0 <= j < seen.len() && seen[j] == k;
                    assert(upto[j] == k);
                }
                if upto.contains(k) && k != key {
                    let j = choose|j: int| 0 <= j < upto.len() && upto[j] == k;
                    assert(seen[j] == k);
                }
                if k == key {
                    assert(upto[i as int] == k);
                }
            }
        }
    }
    proof {
        assert(keys.take(n as int) =~= keys);
        assert(env@ =~= old(env)@.union_prefer_right(more@));
    }
}

/// The environment that the output of the script describes, over the one it was run in.
pub fn parse_env_dump(env_dump: &str, base_env: &Environment) -> (r: Environment)
    ensures
        r@ == with_lines(
            base_env@,
            text::lines_of(env_dump@),
            text::lines_of(env_dump@).len() as int,
        ),
{
    let mut env = copy_environment(base_env);
    let lines = text::lines(env_dump);
    let ghost all = text::texts(lines@);
    for i in 0..lines.len()
        invariant
            all == text::texts(lines@),
            env@ == with_lines(base_env@, all, i as int),
    {
        assert(all[i as int] == lines@[i as int]@);
        if let Some((name, value)) = text::split_once(lines[i].as_str(), '=') {
            if !text::is_empty(name.as_str()) {
                insert_env_ignore_ascii_case(&mut env, name, value);
            }
        }
    }
    env
}

/// How an entry of the search path is told from others: with backward slashes and without case.
pub open spec fn entry_key(entry: Seq<char>) -> Seq<char> {
    text::ascii_lower_of(text::replace_of(entry, "/"@, "\\"@))
}

/// The entries without white space around them, as far as they are not empty and did not stand
/// before.
pub open spec fn distinct_entries(entries: Seq<Seq<char>>) -> Seq<Seq<char>>
    decreases entries.len(),
{
    if entries.len() == 0 {
        Seq::empty()
    } else {
        let before = distinct_entries(entries.drop_last());
        let entry = text::trim_of(entries.last());
        if entry.len() == 0 || entry_keys(before).contains(entry_key(entry)) {
            before
        } else {
            before.push(entry)
        }
    }
}

/// The keys of the entries.
pub open spec fn entry_keys(entries: Seq<Seq<char>>) -> Seq<Seq<char>> {
    Seq::new(entries.len(), |i: int| entry_key(entries[i]))
}

/// The entry leads into Visual Studio.
pub open spec fn is_visual_studio(entry: Seq<char>) -> bool {
    text::contains_text(entry_key(entry), "microsoft visual studio"@)
}

/// The entries that lead into Visual Studio, or those that do not, in their order.
pub open spec fn entries_where(entries: Seq<Seq<char>>, visual_studio: bool) -> Seq<Seq<char>>
    decreases entries.len(),
{
    if entries.len() == 0 {
        Seq::empty()
    } else if is_visual_studio(entries.last()) == visual_studio {
        entries_where(entries.drop_last(), visual_studio).push(entries.last())
    } else {
        entries_where(entries.drop_last(), visual_studio)
    }
}

/// The entries of the search path with those that lead into Visual Studio first, each once.
pub fn prioritize_visual_studio_path_entries(entries: &Vec<String>) -> (r: Vec<String>)
    ensures
        ({
            let distinct = distinct_entries(text::texts(entries@));
            text::texts(r@) == entries_where(distinct, true) + entries_where(distinct, false)
        }),
{
    let ghost all = text::texts(entries@);
    let mut keys: Vec<String> = Vec::new();
    let mut first: Vec<String> = Vec::new();
    let mut others: Vec<String> = Vec::new();
    assert(text::texts(keys@) =~= entry_keys(distinct_entries(all.take(0))));
    assert(text::texts(first@) =~= Seq::empty());
    assert(text::texts(others@) =~= Seq::empty());
    for i in 0..entries.len()
        invariant
            all == text::texts(entries@),
            text::texts(keys@) == entry_keys(distinct_entries(all.take(i as int))),
            text::texts(first@) == entries_where(distinct_entries(all.take(i as int)), true),
            text::texts(others@) == entries_where(distinct_entries(all.take(i as int)), false),
    {
        assert(all.take(i + 1).drop_last() =~= all.take(i as int));
        let ghost before = distinct_entries(all.take(i as int));
        let entry = text::trim(entries[i].as_str());
        if !text::is_empty(entry.as_str()) {
            let key = text::to_ascii_lowercase(
                text::replace(entry.as_str(), "/", "\\").as_str(),
            );
            if !text::texts_contain(&keys, key.as_str()) {
                let ghost after = before.push(entry@);
                proof {
                    assert(after.drop_last() =~= before);
                    assert(entry_keys(after) =~= entry_keys(before).push(key@));
                }
                let inside = text::contains(key.as_str(), "microsoft visual studio");
                text::push_text(&mut keys, key);
                if inside {
                    text::push_text(&mut first, entry);
                } else {
                    text::push_text(&mut others, entry);
                }
            }
        }
    }
    assert(all.take(all.len() as int) =~= all);
    text::append_texts(&mut first, &others);
    first
}

/// The environment with its search path replaced, where it has one. The directories may have
/// been impossible to join; the path is then kept.
pub open spec fn with_search_path(
    env: EnvironmentView,
    joined: Option<Seq<char>>,
) -> EnvironmentView {
    match value_like(env, "PATH"@) {
        None => env,
        Some(path) => with_variable(
            env,
            "PATH"@,
            match joined {
                Some(ordered) => ordered,
                None => path,
            },
        ),
    }
}

/// Replaces the search path of an environment, where it has one; where the directories could not
/// be joined, its value stays.
pub fn put_search_path(environment: &mut Environment, joined: Option<String>)
    ensures
        final(environment)@ == with_search_path(old(environment)@, text::opt_text(joined)),
{
    if let Some(path) = get_env_ignore_ascii_case(environment, "PATH") {
        let value = match joined {
            Some(ordered) => ordered,
            None => path,
        };
        insert_env_ignore_ascii_case(environment, "PATH".to_owned(), value);
    }
}

/// The environment of the developer tools, once it is known.
pub struct VsDevEnv {
    resolved_env: Option<Environment>,
}

/// The description of a developer environment that could not be had.
pub open spec fn not_generated_message() -> Seq<char> {
    "Failed to generate the Visual Studio developer environment"@
}

/// The description of a Ninja build without a developer environment.
pub open spec fn no_ninja_environment_message() -> Seq<char> {
    "Failed to resolve the MSVC environment for Ninja"@
}

/// The failure says that a Ninja build has no developer environment, since that could not be had
/// because of `cause`.
pub open spec fn is_unresolved(e: Error, cause: Error) -> bool {
    &&& e.message@ == no_ninja_environment_message()
    &&& e.causes@.len() == cause.causes@.len() + 2
    &&& e.causes@[0]@ == not_generated_message()
    &&& e.causes@.skip(1) == seq![cause.message] + cause.causes@
}

impl VsDevEnv {
    /// The environment, where it is known.
    pub closed spec fn resolved(self) -> Option<EnvironmentView> {
        match self.resolved_env {
            Some(env) => Some(env@),
            None => None,
        }
    }

    /// An environment that is not known yet.
    pub fn new() -> (r: Self)
        ensures
            r.resolved() is None,
    {
        VsDevEnv { resolved_env: None }
    }

    /// An environment that is known.
    pub fn with_resolved_env(resolved_env: Environment) -> (r: Self)
        ensures
            r.resolved() == Some(resolved_env@),
    {
        VsDevEnv { resolved_env: Some(resolved_env) }
    }

    /// The environment; where it is not known yet, the resolver is asked, and its answer kept
    /// unless it fails.
    pub fn resolved_env_with<F: FnOnce() -> Result<Environment, Error>>(
        &mut self,
        resolver: F,
    ) -> (r: Result<&Environment, Error>)
        requires
            old(self).resolved() is None ==> call_requires(resolver, ()),
        ensures
            match old(self).resolved() {
                Some(env) => r matches Ok(e) && e@ == env && final(self).resolved() == Some(env),
                None => exists|answer: Result<Environment, Error>| #[trigger]
                    call_ensures(resolver, (), answer) && match answer {
                        Ok(env) => r matches Ok(e) && e@ == env@ && final(self).resolved()
                            == Some(env@),
                        Err(cause) => r matches Err(e) && error::is_in_context(
                            e,
                            cause,
                            not_generated_message(),
                        ) && final(self).resolved() is None,
                    },
            },
    {
        if self.resolved_env.is_none() {
            match resolver() {
                Ok(env) => {
                    self.resolved_env = Some(env);
                },
                Err(e) => {
                    return Err(
                        e.with_context(
                            "Failed to generate the Visual Studio developer environment",
                        ),
                    );
                },
            }
        }
        match &self.resolved_env {
            Some(env) => Ok(env),
            None => Err(Error::new("Visual Studio developer environment should be cached")),
        }
    }

    /// Gives a command of a Ninja build the environment of the developer tools; commands of
    /// other builds keep theirs.
    pub fn apply_to_ninja_command<F: FnOnce() -> Result<Environment, Error>>(
        &mut self,
        cmake_generator: &str,
        command_env: &mut Environment,
        resolver: F,
    ) -> (r: Result<(), Error>)
        requires
            text::contains_text(cmake_generator@, "Ninja"@) && old(self).resolved() is None
                ==> call_requires(resolver, ()),
        ensures
            if !text::contains_text(cmake_generator@, "Ninja"@) {
                r is Ok && final(command_env)@ == old(command_env)@ && final(self).resolved()
                    == old(self).resolved()
            } else {
                match old(self).resolved() {
                    Some(env) => r is Ok && final(self).resolved() == Some(env) && final(command_env)@ == old(command_env)@.union_prefer_right(env),
                    None => exists|answer: Result<Environment, Error>| #[trigger]
                        call_ensures(resolver, (), answer) && match answer {
                            Ok(env) => r is Ok && final(self).resolved() == Some(env@) && final(command_env)@ == old(command_env)@.union_prefer_right(env@),
                            Err(cause) => r matches Err(e) && is_unresolved(e, cause)
                                && final(self).resolved() is None && final(command_env)@
                                == old(command_env)@,
                        },
                }
            },
    {
        if !text::contains(cmake_generator, "Ninja") {
            return Ok(());
        }
        match self.resolved_env_with(resolver) {
            Ok(env) => {
                overlay(command_env, env);
                Ok(())
            },
            Err(e) => {
                let ghost causes = e.causes@;
                let error = e.with_context("Failed to resolve the MSVC environment for Ninja");
                assert(error.causes@.skip(1) =~= causes);
                Err(error)
            },
        }
    }
}

} // verus!
