//! CMake presets: their content, and what a preset inherits from others.

use crate::maps::TextMap;
use crate::text;
use vstd::prelude::*;

verus! {

/// The value of a cache variable.
pub enum CacheValue {
    /// A string.
    Text(String),
    /// Any other value, as compact JSON.
    Other(String),
}

/// The content of a [`CacheValue`].
pub enum CacheValueView {
    Text(Seq<char>),
    Other(Seq<char>),
}

impl View for CacheValue {
    type V = CacheValueView;

    open spec fn view(&self) -> CacheValueView {
        match self {
            CacheValue::Text(s) => CacheValueView::Text(s@),
            CacheValue::Other(s) => CacheValueView::Other(s@),
        }
    }
}

impl CacheValue {
    /// A copy of the value.
    pub fn copy(&self) -> (r: Self)
        ensures
            r@ == self@,
    {
        match self {
            CacheValue::Text(s) => CacheValue::Text(s.clone()),
            CacheValue::Other(s) => CacheValue::Other(s.clone()),
        }
    }

    /// The string, where the value is one.
    pub fn as_str(&self) -> (r: Option<&str>)
        ensures
            match r {
                Some(s) => self@ == CacheValueView::Text(s@),
                None => self@ is Other,
            },
    {
        match self {
            CacheValue::Text(s) => Some(s.as_str()),
            CacheValue::Other(_) => None,
        }
    }

    /// Whether the values are the same.
    pub fn same(&self, other: &Self) -> (r: bool)
        ensures
            r == (self@ == other@),
    {
        match (self, other) {
            (CacheValue::Text(a), CacheValue::Text(b)) => text::same_text(a.as_str(), b.as_str()),
            (CacheValue::Other(a), CacheValue::Other(b)) => text::same_text(
                a.as_str(),
                b.as_str(),
            ),
            _ => false,
        }
    }
}

/// The cache variables of a preset.
pub type CacheVariables = TextMap<CacheValue>;

/// The content of [`CacheVariables`].
pub type VariablesView = Map<Seq<char>, CacheValueView>;

/// A preset for configuring.
pub struct ConfigurePreset {
    pub name: String,
    pub inherits: Option<Vec<String>>,
    pub generator: Option<String>,
    pub binary_dir: Option<String>,
    pub cache_variables: Option<CacheVariables>,
    pub hidden: Option<bool>,
    /// The other fields, as compact JSON.
    pub extra: String,
    /// How many presets inherit from this one in a row, where it was reached first.
    pub depth: u32,
    /// Whether the preset has what it inherits.
    pub has_expanded: bool,
}

/// The content of a [`ConfigurePreset`].
pub struct PresetView {
    pub name: Seq<char>,
    pub inherits: Option<Seq<Seq<char>>>,
    pub generator: Option<Seq<char>>,
    pub binary_dir: Option<Seq<char>>,
    pub variables: Option<VariablesView>,
    pub hidden: Option<bool>,
    pub extra: Seq<char>,
    pub depth: int,
    pub has_expanded: bool,
}

/// The content of an optional list of texts.
pub open spec fn opt_texts(list: Option<Vec<String>>) -> Option<Seq<Seq<char>>> {
    match list {
        Some(v) => Some(text::texts(v@)),
        None => None,
    }
}

/// The content of optional variables.
pub open spec fn opt_variables(vars: Option<CacheVariables>) -> Option<VariablesView> {
    match vars {
        Some(v) => Some(v@),
        None => None,
    }
}

impl View for ConfigurePreset {
    type V = PresetView;

    open spec fn view(&self) -> PresetView {
        PresetView {
            name: self.name@,
            inherits: opt_texts(self.inherits),
            generator: text::opt_text(self.generator),
            binary_dir: text::opt_text(self.binary_dir),
            variables: opt_variables(self.cache_variables),
            hidden: self.hidden,
            extra: self.extra@,
            depth: self.depth as int,
            has_expanded: self.has_expanded,
        }
    }
}

/// The content of every preset of a list.
pub open spec fn preset_views(presets: Seq<ConfigurePreset>) -> Seq<PresetView> {
    Seq::new(presets.len(), |i: int| presets[i]@)
}

/// A preset that has nothing but a name.
pub open spec fn named_preset(name: Seq<char>) -> PresetView {
    PresetView {
        name,
        inherits: None,
        generator: None,
        binary_dir: None,
        variables: None,
        hidden: None,
        extra: Seq::empty(),
        depth: 0,
        has_expanded: false,
    }
}

/// A copy of an optional string.
pub fn copy_opt(s: &Option<String>) -> (r: Option<String>)
    ensures
        text::opt_text(r) == text::opt_text(*s),
{
    match s {
        Some(t) => Some(t.clone()),
        None => None,
    }
}

/// A copy of an optional list of strings.
pub fn copy_opt_list(list: &Option<Vec<String>>) -> (r: Option<Vec<String>>)
    ensures
        opt_texts(r) == opt_texts(*list),
{
    match list {
        Some(v) => Some(text::clone_texts(v)),
        None => None,
    }
}

/// Adds every variable of `more` whose name `vars` does not have.
pub fn add_missing(vars: &mut CacheVariables, more: &CacheVariables)
    ensures
        final(vars)@ == more@.union_prefer_right(old(vars)@),
{
    let n: usize = more.len();
    for i in 0..n
        invariant
            n == more.keys().len(),
            more.keys().no_duplicates(),
            forall|k: Seq<char>| #[trigger] more@.contains_key(k) <==> more.keys().contains(k),
            forall|k: Seq<char>| #[trigger]
                vars@.contains_key(k) <==> old(vars)@.contains_key(k) || more.keys().take(
                    i as int,
                ).contains(k),
            forall|k: Seq<char>|
                vars@.contains_key(k) ==> #[trigger] vars@[k] == (if old(vars)@.contains_key(k) {
                    old(vars)@[k]
                } else {
                    more@[k]
                }),
    {
        let ghost key = more.keys()[i as int];
        let ghost before = vars@;
        proof {
            let seen = more.keys().take(i as int);
            let upto = more.keys().take(i + 1);
            assert(upto =~= seen.push(key));
            assert forall|k: Seq<char>| #[trigger] upto.contains(k) <==> seen.contains(k) || k
                == key by {
                if seen.contains(k) {
                    let j = choose|j: int| 0 <= j < seen.len() && seen[j] == k;
                    assert(upto[j] == k);
                }
                if upto.contains(k) && k != key {
                    let j = choose|j: int| 0 <= j < upto.len() && upto[j] == k;
                    assert(seen[j] == k);
                }
                if k == key {
                    assert(upto[i as int] == k);
                }
            }
        }
        if !vars.contains_key(more.key_at(i).as_str()) {
            vars.insert(more.key_at(i).clone(), more.value_at(i).copy());
        }
    }
    proof {
        assert(more.keys().take(n as int) =~= more.keys());
        assert(vars@ =~= more@.union_prefer_right(old(vars)@));
    }
}

/// A copy of the variables.
pub fn copy_variables(vars: &CacheVariables) -> (r: CacheVariables)
    ensures
        r@ == vars@,
{
    let mut out: CacheVariables = TextMap::new();
    add_missing(&mut out, vars);
    assert(out@ =~= vars@);
    out
}

/// A copy of optional variables.
pub fn copy_opt_variables(vars: &Option<CacheVariables>) -> (r: Option<CacheVariables>)
    ensures
        opt_variables(r) == opt_variables(*vars),
{
    match vars {
        Some(v) => Some(copy_variables(v)),
        None => None,
    }
}

impl ConfigurePreset {
    /// A preset that has nothing but a name.
    pub fn new_with_name(name: &str) -> (r: Self)
        ensures
            r@ == named_preset(name@),
    {
        ConfigurePreset {
            name: name.to_owned(),
            inherits: None,
            generator: None,
            binary_dir: None,
            cache_variables: None,
            hidden: None,
            extra: String::new(),
            depth: 0,
            has_expanded: false,
        }
    }

    /// A copy of the preset.
    pub fn copy(&self) -> (r: Self)
        ensures
            r@ == self@,
    {
        ConfigurePreset {
            name: self.name.clone(),
            inherits: copy_opt_list(&self.inherits),
            generator: copy_opt(&self.generator),
            binary_dir: copy_opt(&self.binary_dir),
            cache_variables: copy_opt_variables(&self.cache_variables),
            hidden: self.hidden,
            extra: self.extra.clone(),
            depth: self.depth,
            has_expanded: self.has_expanded,
        }
    }
}

/// What a preset inherits from, as it is written: one name, or a list.
pub enum StringOrVec {
    One(String),
    Many(Vec<String>),
}

/// What a preset inherits from.
pub fn inherits_of(written: Option<StringOrVec>) -> (r: Option<Vec<String>>)
    ensures
        match (written, r) {
            (None, None) => true,
            (Some(StringOrVec::One(s)), Some(list)) => list@ == seq![s],
            (Some(StringOrVec::Many(v)), Some(list)) => list == v,
            _ => false,
        },
{
    match written {
        None => None,
        Some(StringOrVec::One(s)) => {
            let mut list: Vec<String> = Vec::new();
            list.push(s);
            Some(list)
        },
        Some(StringOrVec::Many(list)) => Some(list),
    }
}

/// A preset for building.
pub struct BuildPreset {
    pub name: String,
    pub configure_preset: Option<String>,
    pub configuration: Option<String>,
    pub hidden: Option<bool>,
    /// The other fields, as compact JSON.
    pub extra: String,
}

/// The presets of a repository.
pub struct CMakePresets {
    pub version: u32,
    pub configure_presets: Vec<ConfigurePreset>,
    pub build_presets: Option<Vec<BuildPreset>>,
    /// The other fields, as compact JSON.
    pub extra: String,
}

/// The presets of a repository that belong to its user.
pub type CMakeUserPresets = CMakePresets;

/// The character set that `chardet::detect` finds in some bytes.
pub uninterp spec fn detected_charset(bytes: Seq<u8>) -> Seq<char>;

/// The character set that `chardet::UniversalDetector` names once it was fed some bytes and then
/// one byte beyond ASCII.
pub uninterp spec fn charset_past_escapes(bytes: Seq<u8>, last: u8) -> Seq<char>;

/// The text that the encoding under a label decodes bytes to, and whether some were malformed.
pub uninterp spec fn decoded_by_label(label: Seq<char>, bytes: Seq<u8>) -> Option<
    (Seq<char>, bool),
>;

/// The text that UTF-8 decodes bytes to, and whether some were malformed.
pub uninterp spec fn decoded_as_utf8(bytes: Seq<u8>) -> (Seq<char>, bool);

/// Why the text of a file cannot be told.
#[derive(Debug)]
pub enum EncodingError {
    /// The file is too large to be decoded.
    TooLarge,
    /// The file holds escapes beside ASCII, and they begin no known character set.
    UnknownEscapes,
}

impl EncodingError {
    /// The description of the error.
    pub fn message(&self) -> (r: String)
        ensures
            r@ == (match *self {
                EncodingError::TooLarge => "File is too large to be decoded"@,
                EncodingError::UnknownEscapes => "File holds escapes of no known character set"@,
            }),
    {
        match self {
            EncodingError::TooLarge => "File is too large to be decoded".to_owned(),
            EncodingError::UnknownEscapes => {
                "File holds escapes of no known character set".to_owned()
            },
        }
    }
}

/// Whether bytes are so few that their decoded text can be held.
pub open spec fn decodable(bytes: Seq<u8>) -> bool {
    bytes.len() <= isize::MAX / 8
}

/// Whether bytes are ASCII without escapes.
pub open spec fn is_plain(bytes: Seq<u8>) -> bool {
    forall|i: int| 0 <= i < bytes.len() ==> #[trigger] bytes[i] < 0x80 && bytes[i] != 0x1b
}

/// Whether the character set of bytes can be found: of ASCII in any case, and of others where they
/// are so few that every count of them has 31 bits.
pub open spec fn detectable(bytes: Seq<u8>) -> bool {
    bytes.len() <= i32::MAX || is_plain(bytes)
}

/// Whether the character set of bytes can be found, and they can be decoded.
pub fn is_decodable(bytes: &Vec<u8>) -> (r: bool)
    ensures
        r == (decodable(bytes@) && detectable(bytes@)),
{
    let count: usize = bytes.len();
    if count > (isize::MAX / 8) as usize {
        return false;
    }
    if count as u64 <= i32::MAX as u64 {
        return true;
    }
    for i in 0..count
        invariant
            count == bytes@.len(),
            count > i32::MAX,
            forall|j: int| 0 <= j < i ==> #[trigger] bytes@[j] < 0x80 && bytes@[j] != 0x1b,
    {
        if bytes[i] >= 0x80 || bytes[i] == 0x1b {
            assert(!(bytes@[i as int] < 0x80 && bytes@[i as int] != 0x1b));
            return false;
        }
    }
    true
}

/// Whether a byte is neither ASCII nor a space that does not break.
pub open spec fn is_high(byte: u8) -> bool {
    byte >= 0x80 && byte != 0xa0
}

/// Whether the only thing beside ASCII in some bytes is escapes.
pub open spec fn only_escapes(bytes: Seq<u8>) -> bool {
    &&& bytes.contains(0x1b)
    &&& forall|i: int| 0 <= i < bytes.len() ==> !is_high(#[trigger] bytes[i])
}

/// Whether the only thing beside ASCII in some bytes is escapes.
fn has_only_escapes(bytes: &Vec<u8>) -> (r: bool)
    ensures
        r == only_escapes(bytes@),
{
    let mut escaped = false;
    for i in 0..bytes.len()
        invariant
            escaped == bytes@.take(i as int).contains(0x1b),
            forall|j: int| 0 <= j < i ==> !is_high(#[trigger] bytes@[j]),
    {
        let byte: u8 = bytes[i];
        proof {
            let before = bytes@.take(i as int);
            let now = bytes@.take(i + 1);
            assert(now =~= before.push(byte));
            assert(now[i as int] == byte);
            if before.contains(0x1b) {
                let k = before.index_of(0x1b);
                assert(now[k] == 0x1b);
            }
        }
        if byte >= 0x80 && byte != 0xa0 {
            assert(is_high(bytes@[i as int]));
            return false;
        }
        if byte == 0x1b {
            escaped = true;
        }
    }
    assert(bytes@.take(bytes@.len() as int) =~= bytes@);
    escaped
}

/// Whether a character set is one whose text is marked by escapes.
pub open spec fn is_escaped_set(label: Seq<char>) -> bool {
    text::begins_with(label, "ISO-2022-"@) || label == "HZ-GB-2312"@
}

/// `chardet::detect`: the name of the character set. Where the only thing beside ASCII is
/// escapes the function panics unless they begin a known set, so such bytes are not for it; and
/// it counts what is beyond ASCII in 32 bits with a sign.
#[verifier::external_body]
fn detect_charset(bytes: &Vec<u8>) -> (r: String)
    requires
        detectable(bytes@),
        !only_escapes(bytes@),
    ensures
        r@ == detected_charset(bytes@),
{
    chardet::detect(bytes).0
}

/// A byte that no ASCII text holds.
pub const BEYOND_ASCII: u8 = 0x80;

/// `chardet::UniversalDetector`, fed the bytes and then one byte beyond ASCII, but not 0xa0, which
/// it takes for a space: the name of the character set. Where the bytes settle it, as the escapes
/// of a known set do, the byte after them is not looked at; else that byte keeps `close` from
/// panicking on escapes, and the set that is named is none of those that escapes mark.
#[verifier::external_body]
fn detect_past_escapes(bytes: &Vec<u8>, last: u8) -> (r: String)
    requires
        bytes@.len() <= i32::MAX,
        only_escapes(bytes@),
        last >= 0x80,
        last != 0xa0,
    ensures
        r@ == charset_past_escapes(bytes@, last),
{
    let mut detector = chardet::UniversalDetector::new();
    detector.feed(bytes);
    detector.feed(&[last]);
    detector.close().0
}

/// `encoding_rs::Encoding::decode` of the encoding that `encoding_rs::Encoding::for_label` finds
/// under the label; `None` where it finds none.
#[verifier::external_body]
fn decode_by_label(label: &str, bytes: &Vec<u8>) -> (r: Option<(String, bool)>)
    requires
        decodable(bytes@),
    ensures
        (match r {
            Some((s, b)) => Some((s@, b)),
            None => None,
        }) == decoded_by_label(label@, bytes@),
{
    let (content, _, malformed) = encoding_rs::Encoding::for_label(label.as_bytes())?.decode(bytes);
    Some((content.into_owned(), malformed))
}

/// `encoding_rs::Encoding::decode` of `encoding_rs::UTF_8`.
#[verifier::external_body]
fn decode_as_utf8(bytes: &Vec<u8>) -> (r: (String, bool))
    requires
        decodable(bytes@),
    ensures
        (r.0@, r.1) == decoded_as_utf8(bytes@),
{
    let (content, _, malformed) = encoding_rs::UTF_8.decode(bytes);
    (content.into_owned(), malformed)
}

/// The text that bytes hold in the encoding of a label, or in UTF-8 where no encoding has it,
/// and whether some of it was malformed.
pub open spec fn text_with_label(label: Seq<char>, bytes: Seq<u8>) -> (Seq<char>, bool) {
    match decoded_by_label(label, bytes) {
        Some(found) => found,
        None => decoded_as_utf8(bytes),
    }
}

/// The text that bytes hold in the encoding of the label, or in UTF-8 where no encoding has it.
pub fn decode_with_label(label: &str, bytes: &Vec<u8>) -> (r: (String, bool))
    requires
        decodable(bytes@),
    ensures
        (r.0@, r.1) == text_with_label(label@, bytes@),
{
    match decode_by_label(label, bytes) {
        Some(found) => found,
        None => decode_as_utf8(bytes),
    }
}

/// The text of bytes that hold nothing beside ASCII but escapes, from the character set that was
/// found past the escapes: none where escapes do not mark it.
pub fn decode_escaped(label: &str, bytes: &Vec<u8>) -> (r: Option<(String, bool)>)
    requires
        decodable(bytes@),
    ensures
        is_escaped_set(label@) <==> r is Some,
        r matches Some(found) ==> (found.0@, found.1) == text_with_label(label@, bytes@),
{
    if text::starts_with(label, "ISO-2022-") || text::same_text(label, "HZ-GB-2312") {
        Some(decode_with_label(label, bytes))
    } else {
        None
    }
}

/// The text of a file in whatever encoding, and whether some of it was malformed; none where the
/// encoding cannot be told.
pub open spec fn json_file_text(bytes: Seq<u8>) -> Option<(Seq<char>, bool)> {
    if !decodable(bytes) || !detectable(bytes) {
        None
    } else if !only_escapes(bytes) {
        Some(text_with_label(detected_charset(bytes), bytes))
    } else if is_escaped_set(charset_past_escapes(bytes, BEYOND_ASCII)) {
        Some(text_with_label(charset_past_escapes(bytes, BEYOND_ASCII), bytes))
    } else {
        None
    }
}

/// The text of a JSON file in whatever encoding, and whether some of it was malformed.
pub fn read_json_file_to_string(bytes: &Vec<u8>) -> (r: Result<(String, bool), EncodingError>)
    ensures
        match json_file_text(bytes@) {
            Some(found) => r matches Ok(text) && (text.0@, text.1) == found,
            None => r matches Err(e) && (e is TooLarge <==> !decodable(bytes@) || !detectable(
                bytes@,
            )),
        },
{
    if !is_decodable(bytes) {
        return Err(EncodingError::TooLarge);
    }
    if !has_only_escapes(bytes) {
        let label = detect_charset(bytes);
        return Ok(decode_with_label(label.as_str(), bytes));
    }
    let label = detect_past_escapes(bytes, BEYOND_ASCII);
    match decode_escaped(label.as_str(), bytes) {
        Some(found) => Ok(found),
        None => Err(EncodingError::UnknownEscapes),
    }
}

/// The presets of a repository and those of its user. Where the user has none there are none
/// with the version of the others, which also stands in for a missing version.
pub fn parse_cmake_presets(presets: CMakePresets, user_presets: Option<CMakeUserPresets>) -> (r: (
    CMakePresets,
    CMakeUserPresets,
))
    ensures
        r.0 == presets,
        match user_presets {
            Some(user) => r.1 == (CMakePresets {
                version: if user.version == 0 {
                    presets.version
                } else {
                    user.version
                },
                ..user
            }),
            None => {
                &&& r.1.version == presets.version
                &&& r.1.configure_presets@.len() == 0
                &&& r.1.build_presets is None
                &&& r.1.extra@.len() == 0
            },
        },
{
    let mut user = match user_presets {
        Some(user) => user,
        None => CMakePresets {
            version: 0,
            configure_presets: Vec::new(),
            build_presets: None,
            extra: String::new(),
        },
    };
    if user.version == 0 {
        user.version = presets.version;
    }
    (presets, user)
}

/// Index of the last preset with the name.
pub open spec fn preset_named(presets: Seq<PresetView>, name: Seq<char>) -> Option<int>
    decreases presets.len(),
{
    if presets.len() == 0 {
        None
    } else if presets.last().name == name {
        Some(presets.len() - 1)
    } else {
        preset_named(presets.drop_last(), name)
    }
}

/// `child` with what it lacks of `parent`.
pub open spec fn inherit_from(child: PresetView, parent: PresetView) -> PresetView {
    PresetView {
        generator: match child.generator {
            Some(g) => Some(g),
            None => parent.generator,
        },
        binary_dir: match child.binary_dir {
            Some(d) => Some(d),
            None => parent.binary_dir,
        },
        variables: match (child.variables, parent.variables) {
            (Some(own), Some(more)) => Some(more.union_prefer_right(own)),
            (None, Some(more)) => Some(more),
            (own, None) => own,
        },
        ..child
    }
}

/// The presets with preset `i` marked as having what it inherits.
pub open spec fn finish_preset(presets: Seq<PresetView>, i: int, depth: int) -> Seq<PresetView> {
    presets.update(i, PresetView { depth, has_expanded: true, ..presets[i] })
}

/// The presets with everything that preset `i` inherits filled in; `None` where presets inherit
/// from one another over more than `limit` steps.
pub open spec fn expand_at(
    presets: Seq<PresetView>,
    i: int,
    depth: int,
    limit: nat,
) -> Option<Seq<PresetView>>
    decreases limit, 0int,
{
    if presets[i].has_expanded {
        Some(presets)
    } else if limit == 0 {
        None
    } else {
        match presets[i].inherits {
            None => Some(finish_preset(presets, i, depth)),
            Some(parents) => match expand_parents(
                presets,
                i,
                depth,
                (limit - 1) as nat,
                parents,
                parents.len() as int,
            ) {
                None => None,
                Some(after) => Some(finish_preset(after, i, depth)),
            },
        }
    }
}

/// The presets with the first `k` parents of preset `i` filled in and inherited from.
pub open spec fn expand_parents(
    presets: Seq<PresetView>,
    i: int,
    depth: int,
    limit: nat,
    parents: Seq<Seq<char>>,
    k: int,
) -> Option<Seq<PresetView>>
    decreases limit, k + 1,
{
    if k <= 0 {
        Some(presets)
    } else {
        match expand_parents(presets, i, depth, limit, parents, k - 1) {
            None => None,
            Some(before) => match preset_named(before, parents[k - 1]) {
                None => Some(before),
                Some(p) => match expand_at(before, p, depth + 1, limit) {
                    None => None,
                    Some(after) => Some(after.update(i, inherit_from(after[i], after[p]))),
                },
            },
        }
    }
}

/// The presets with everything that the first `n` of them inherit filled in.
pub open spec fn expand_first(presets: Seq<PresetView>, n: int) -> Option<Seq<PresetView>>
    decreases n,
{
    if n <= 0 {
        Some(presets)
    } else {
        match expand_first(presets, n - 1) {
            None => None,
            Some(before) => expand_at(before, n - 1, 0, presets.len()),
        }
    }
}

/// Index of the last preset with the name.
fn find_last_preset(presets: &Vec<ConfigurePreset>, name: &str) -> (r: Option<usize>)
    ensures
        match r {
            Some(i) => i < presets@.len() && preset_named(preset_views(presets@), name@) == Some(
                i as int,
            ),
            None => preset_named(preset_views(presets@), name@) is None,
        },
{
    let ghost views = preset_views(presets@);
    let mut i: usize = presets.len();
    assert(views.take(i as int) =~= views);
    while i > 0
        invariant
            views == preset_views(presets@),
            i <= presets@.len(),
            preset_named(views, name@) == preset_named(views.take(i as int), name@),
        decreases i,
    {
        i -= 1;
        assert(views.take(i + 1).drop_last() =~= views.take(i as int));
        if text::same_text(presets[i].name.as_str(), name) {
            return Some(i);
        }
    }
    None
}

/// `child` with what it lacks of `parent`.
fn inherit(child: &ConfigurePreset, parent: &ConfigurePreset) -> (r: ConfigurePreset)
    ensures
        r@ == inherit_from(child@, parent@),
{
    let mut preset = child.copy();
    if preset.generator.is_none() {
        preset.generator = copy_opt(&parent.generator);
    }
    if preset.binary_dir.is_none() {
        preset.binary_dir = copy_opt(&parent.binary_dir);
    }
    if let Some(more) = &parent.cache_variables {
        let mut vars = match &child.cache_variables {
            Some(own) => copy_variables(own),
            None => TextMap::new(),
        };
        add_missing(&mut vars, more);
        assert(child.cache_variables is None ==> vars@ =~= more@);
        preset.cache_variables = Some(vars);
    }
    preset
}

proof fn lemma_expand_parents_fails(
    presets: Seq<PresetView>,
    i: int,
    depth: int,
    limit: nat,
    parents: Seq<Seq<char>>,
    k: int,
    n: int,
)
    requires
        0 <= k <= n,
        expand_parents(presets, i, depth, limit, parents, k) is None,
    ensures
        expand_parents(presets, i, depth, limit, parents, n) is None,
    decreases n - k,
{
    if k < n {
        lemma_expand_parents_fails(presets, i, depth, limit, parents, k, n - 1);
    }
}

proof fn lemma_expand_first_fails(presets: Seq<PresetView>, k: int, n: int)
    requires
        0 <= k <= n,
        expand_first(presets, k) is None,
    ensures
        expand_first(presets, n) is None,
    decreases n - k,
{
    if k < n {
        lemma_expand_first_fails(presets, k, n - 1);
    }
}

/// Fills in everything that preset `idx` inherits. Returns whether that came to an end.
pub fn expand_preset(
    presets: &mut Vec<ConfigurePreset>,
    idx: usize,
    depth: u32,
    limit: usize,
) -> (r: bool)
    requires
        idx < old(presets)@.len(),
        depth + limit <= u32::MAX,
    ensures
        expand_at(preset_views(old(presets)@), idx as int, depth as int, limit as nat) == (if r {
            Some(preset_views(final(presets)@))
        } else {
            None
        }),
        final(presets)@.len() == old(presets)@.len(),
    decreases limit,
{
    let ghost start = preset_views(presets@);
    assert(start[idx as int] == presets@[idx as int]@);
    if presets[idx].has_expanded {
        return true;
    }
    if limit == 0 {
        return false;
    }
    let inherits = copy_opt_list(&presets[idx].inherits);
    if let Some(parents) = &inherits {
        let ghost names = text::texts(parents@);
        for k in 0..parents.len()
            invariant
                names == text::texts(parents@),
                limit > 0,
                idx < presets@.len(),
                presets@.len() == start.len(),
                presets@.len() == old(presets)@.len(),
                start == preset_views(old(presets)@),
                depth + limit <= u32::MAX,
                !start[idx as int].has_expanded,
                start[idx as int].inherits == Some(names),
                expand_parents(
                    start,
                    idx as int,
                    depth as int,
                    (limit - 1) as nat,
                    names,
                    k as int,
                ) == Some(preset_views(presets@)),
        {
            let ghost before = preset_views(presets@);
            assert(names[k as int] == parents@[k as int]@);
            if let Some(p) = find_last_preset(presets, parents[k].as_str()) {
                if !expand_preset(presets, p, depth + 1, limit - 1) {
                    proof {
                        lemma_expand_parents_fails(
                            start,
                            idx as int,
                            depth as int,
                            (limit - 1) as nat,
                            names,
                            k + 1,
                            names.len() as int,
                        );
                    }
                    return false;
                }
                let ghost after = preset_views(presets@);
                let merged = inherit(&presets[idx], &presets[p]);
                assert(after[idx as int] == presets@[idx as int]@ && after[p as int]
                    == presets@[p as int]@);
                presets.set(idx, merged);
                assert(preset_views(presets@) =~= after.update(
                    idx as int,
                    inherit_from(after[idx as int], after[p as int]),
                ));
            }
        }
    }
    let ghost last = preset_views(presets@);
    let mut done = presets[idx].copy();
    done.depth = depth;
    done.has_expanded = true;
    presets.set(idx, done);
    assert(preset_views(presets@) =~= finish_preset(last, idx as int, depth as int));
    true
}

/// Fills in everything that the presets inherit. Returns whether that came to an end; it does
/// not where presets inherit from one another.
pub fn expand_cmake_preset_inheritance(presets: &mut Vec<ConfigurePreset>) -> (r: bool)
    requires
        old(presets)@.len() <= u32::MAX,
    ensures
        expand_first(preset_views(old(presets)@), old(presets)@.len() as int) == (if r {
            Some(preset_views(final(presets)@))
        } else {
            None
        }),
{
    let ghost start = preset_views(presets@);
    let n: usize = presets.len();
    for i in 0..n
        invariant
            n == presets@.len(),
            n == start.len(),
            n <= u32::MAX,
            start == preset_views(old(presets)@),
            expand_first(start, i as int) == Some(preset_views(presets@)),
    {
        if !expand_preset(presets, i, 0, n) {
            proof {
                lemma_expand_first_fails(start, i + 1, n as int);
            }
            return false;
        }
    }
    true
}

/// `after` has what `before` has, and perhaps more.
pub open spec fn preset_keeps(before: PresetView, after: PresetView) -> bool {
    &&& after.name == before.name
    &&& after.inherits == before.inherits
    &&& after.hidden == before.hidden
    &&& after.extra == before.extra
    &&& before.generator is Some ==> after.generator == before.generator
    &&& before.binary_dir is Some ==> after.binary_dir == before.binary_dir
    &&& before.variables is Some ==> after.variables is Some && before.variables->0.submap_of(
        after.variables->0,
    )
    &&& before.has_expanded ==> after.has_expanded
}

/// Every preset of `after` has what its like in `before` has.
pub open spec fn presets_keep(before: Seq<PresetView>, after: Seq<PresetView>) -> bool {
    &&& after.len() == before.len()
    &&& forall|j: int| 0 <= j < before.len() ==> preset_keeps(before[j], #[trigger] after[j])
}

proof fn lemma_presets_keep_trans(a: Seq<PresetView>, b: Seq<PresetView>, c: Seq<PresetView>)
    requires
        presets_keep(a, b),
        presets_keep(b, c),
    ensures
        presets_keep(a, c),
{
    assert forall|j: int| 0 <= j < a.len() implies preset_keeps(a[j], #[trigger] c[j]) by {
        assert(preset_keeps(a[j], b[j]));
        assert(preset_keeps(b[j], c[j]));
        if let Some(x) = a[j].variables {
            let y = b[j].variables->0;
            let z = c[j].variables->0;
            assert(x.submap_of(y) && y.submap_of(z));
            vstd::map_lib::lemma_submap_of_trans(x, y, z);
        }
    }
}

proof fn lemma_preset_named(presets: Seq<PresetView>, name: Seq<char>)
    ensures
        match preset_named(presets, name) {
            Some(i) => 0 <= i < presets.len() && presets[i].name == name,
            None => true,
        },
    decreases presets.len(),
{
    if presets.len() > 0 {
        lemma_preset_named(presets.drop_last(), name);
    }
}

proof fn lemma_expand_keeps(presets: Seq<PresetView>, i: int, depth: int, limit: nat)
    requires
        0 <= i < presets.len(),
    ensures
        expand_at(presets, i, depth, limit) matches Some(after) ==> presets_keep(presets, after)
            && after[i].has_expanded,
    decreases limit, 0int,
{
    if !presets[i].has_expanded && limit > 0 {
        match presets[i].inherits {
            None => {},
            Some(parents) => {
                let n = parents.len() as int;
                lemma_expand_parents_keeps(presets, i, depth, (limit - 1) as nat, parents, n);
                if let Some(middle) = expand_parents(
                    presets,
                    i,
                    depth,
                    (limit - 1) as nat,
                    parents,
                    n,
                ) {
                    lemma_presets_keep_trans(presets, middle, finish_preset(middle, i, depth));
                }
            },
        }
    }
}

proof fn lemma_expand_parents_keeps(
    presets: Seq<PresetView>,
    i: int,
    depth: int,
    limit: nat,
    parents: Seq<Seq<char>>,
    k: int,
)
    requires
        0 <= i < presets.len(),
    ensures
        expand_parents(presets, i, depth, limit, parents, k) matches Some(after) ==> presets_keep(
            presets,
            after,
        ),
    decreases limit, k + 1,
{
    if k > 0 {
        lemma_expand_parents_keeps(presets, i, depth, limit, parents, k - 1);
        if let Some(before) = expand_parents(presets, i, depth, limit, parents, k - 1) {
            if let Some(p) = preset_named(before, parents[k - 1]) {
                lemma_preset_named(before, parents[k - 1]);
                lemma_expand_keeps(before, p, depth + 1, limit);
                if let Some(after) = expand_at(before, p, depth + 1, limit) {
                    let merged = after.update(i, inherit_from(after[i], after[p]));
                    lemma_presets_keep_trans(presets, before, after);
                    lemma_presets_keep_trans(presets, after, merged);
                }
            }
        }
    }
}

proof fn lemma_expand_first_keeps(presets: Seq<PresetView>, n: int)
    requires
        n <= presets.len(),
    ensures
        expand_first(presets, n) matches Some(after) ==> presets_keep(presets, after) && (forall|
            j: int,
        |
            0 <= j < n ==> (#[trigger] after[j]).has_expanded),
    decreases n,
{
    if n > 0 {
        lemma_expand_first_keeps(presets, n - 1);
        if let Some(before) = expand_first(presets, n - 1) {
            lemma_expand_keeps(before, n - 1, 0, presets.len());
            if let Some(after) = expand_at(before, n - 1, 0, presets.len()) {
                lemma_presets_keep_trans(presets, before, after);
                assert forall|j: int| 0 <= j < n implies (#[trigger] after[j]).has_expanded by {
                    assert(preset_keeps(before[j], after[j]));
                }
            }
        }
    }
}

/// Inheriting overrides nothing: a preset keeps the fields and the variables that it has of its
/// own, and afterwards every preset has what it inherits.
pub proof fn law_own_fields_win(presets: Seq<PresetView>)
    ensures
        expand_first(presets, presets.len() as int) matches Some(after) ==> presets_keep(
            presets,
            after,
        ) && (forall|j: int| 0 <= j < after.len() ==> (#[trigger] after[j]).has_expanded),
{
    lemma_expand_first_keeps(presets, presets.len() as int);
}

/// Filling in what is inherited a second time changes nothing.
pub proof fn law_expanding_twice_is_expanding_once(presets: Seq<PresetView>, n: int)
    requires
        n <= presets.len(),
        forall|j: int| 0 <= j < presets.len() ==> (#[trigger] presets[j]).has_expanded,
    ensures
        expand_first(presets, n) == Some(presets),
    decreases n,
{
    if n > 0 {
        law_expanding_twice_is_expanding_once(presets, n - 1);
    }
}

proof fn lemma_preset_named_stable(a: Seq<PresetView>, b: Seq<PresetView>, name: Seq<char>)
    requires
        a.len() == b.len(),
        forall|j: int| 0 <= j < a.len() ==> (#[trigger] a[j]).name == b[j].name,
    ensures
        preset_named(a, name) == preset_named(b, name),
    decreases a.len(),
{
    if a.len() > 0 {
        let x = a.drop_last();
        let y = b.drop_last();
        assert forall|j: int| 0 <= j < x.len() implies (#[trigger] x[j]).name == y[j].name by {
            assert(x[j] == a[j]);
        }
        assert(a[a.len() - 1].name == b[a.len() - 1].name);
        lemma_preset_named_stable(x, y, name);
    }
}

/// Preset `i` inherits from preset `p`.
pub open spec fn inherits_from(presets: Seq<PresetView>, i: int, p: int) -> bool {
    match presets[i].inherits {
        Some(parents) => exists|k: int|
            0 <= k < parents.len() && preset_named(presets, #[trigger] parents[k]) == Some(p),
        None => false,
    }
}

/// Every preset ranks above those it inherits from.
pub open spec fn is_ranked(presets: Seq<PresetView>, rank: spec_fn(int) -> nat) -> bool {
    forall|i: int, p: int|
        0 <= i < presets.len() && #[trigger] inherits_from(presets, i, p) ==> rank(p) < rank(i)
}

proof fn lemma_is_ranked_stable(
    a: Seq<PresetView>,
    b: Seq<PresetView>,
    rank: spec_fn(int) -> nat,
)
    requires
        presets_keep(a, b),
        is_ranked(a, rank),
    ensures
        is_ranked(b, rank),
{
    assert forall|j: int| 0 <= j < a.len() implies (#[trigger] a[j]).name == b[j].name by {
        assert(preset_keeps(a[j], b[j]));
    }
    assert forall|i: int, p: int| 0 <= i < b.len() && #[trigger] inherits_from(
        b,
        i,
        p,
    ) implies rank(p) < rank(i) by {
        assert(preset_keeps(a[i], b[i]));
        let parents = b[i].inherits->0;
        let k = choose|k: int|
            0 <= k < parents.len() && preset_named(b, #[trigger] parents[k]) == Some(p);
        lemma_preset_named_stable(a, b, parents[k]);
        assert(preset_named(a, parents[k]) == Some(p));
        assert(inherits_from(a, i, p));
    }
}

proof fn lemma_ranked_expands(
    presets: Seq<PresetView>,
    i: int,
    depth: int,
    limit: nat,
    rank: spec_fn(int) -> nat,
)
    requires
        0 <= i < presets.len(),
        is_ranked(presets, rank),
        rank(i) < limit,
    ensures
        expand_at(presets, i, depth, limit) is Some,
    decreases limit, 0int,
{
    if !presets[i].has_expanded {
        match presets[i].inherits {
            None => {},
            Some(parents) => {
                lemma_ranked_parents_expand(
                    presets,
                    i,
                    depth,
                    (limit - 1) as nat,
                    parents,
                    parents.len() as int,
                    rank,
                );
            },
        }
    }
}

proof fn lemma_ranked_parents_expand(
    presets: Seq<PresetView>,
    i: int,
    depth: int,
    limit: nat,
    parents: Seq<Seq<char>>,
    k: int,
    rank: spec_fn(int) -> nat,
)
    requires
        0 <= i < presets.len(),
        is_ranked(presets, rank),
        rank(i) <= limit,
        presets[i].inherits == Some(parents),
        k <= parents.len(),
    ensures
        expand_parents(presets, i, depth, limit, parents, k) is Some,
    decreases limit, k + 1,
{
    if k > 0 {
        lemma_ranked_parents_expand(presets, i, depth, limit, parents, k - 1, rank);
        lemma_expand_parents_keeps(presets, i, depth, limit, parents, k - 1);
        let before = expand_parents(presets, i, depth, limit, parents, k - 1)->0;
        if let Some(p) = preset_named(before, parents[k - 1]) {
            lemma_preset_named(before, parents[k - 1]);
            lemma_is_ranked_stable(presets, before, rank);
            assert(preset_keeps(presets[i], before[i]));
            assert(preset_named(before, parents[k - 1]) == Some(p));
            assert(inherits_from(before, i, p));
            lemma_ranked_expands(before, p, depth + 1, limit, rank);
        }
    }
}

proof fn lemma_ranked_first_expand(
    presets: Seq<PresetView>,
    n: int,
    rank: spec_fn(int) -> nat,
)
    requires
        n <= presets.len(),
        is_ranked(presets, rank),
        forall|i: int| 0 <= i < presets.len() ==> #[trigger] rank(i) < presets.len(),
    ensures
        expand_first(presets, n) is Some,
    decreases n,
{
    if n > 0 {
        lemma_ranked_first_expand(presets, n - 1, rank);
        lemma_expand_first_keeps(presets, n - 1);
        let before = expand_first(presets, n - 1)->0;
        lemma_is_ranked_stable(presets, before, rank);
        assert(rank(n - 1) < presets.len());
        lemma_ranked_expands(before, n - 1, 0, presets.len(), rank);
    }
}

/// Presets that do not inherit from one another in a circle, so that each can rank above those
/// it inherits from, get what they inherit.
pub proof fn law_ranked_presets_expand(presets: Seq<PresetView>, rank: spec_fn(int) -> nat)
    requires
        is_ranked(presets, rank),
        forall|i: int| 0 <= i < presets.len() ==> #[trigger] rank(i) < presets.len(),
    ensures
        expand_first(presets, presets.len() as int) is Some,
{
    lemma_ranked_first_expand(presets, presets.len() as int, rank);
}

/// The names that a preset inherits from.
pub open spec fn parents_of(preset: PresetView) -> Seq<Seq<char>> {
    match preset.inherits {
        Some(parents) => parents,
        None => Seq::empty(),
    }
}

/// `own` with what it lacks of the first `k` of its parents that exist, in their order.
pub open spec fn inherited(
    own: PresetView,
    presets: Seq<PresetView>,
    parents: Seq<Seq<char>>,
    k: int,
) -> PresetView
    decreases k,
{
    if k <= 0 {
        own
    } else {
        let before = inherited(own, presets, parents, k - 1);
        match preset_named(presets, parents[k - 1]) {
            None => before,
            Some(p) => inherit_from(before, presets[p]),
        }
    }
}

/// Preset `j` holds its own and what the presets that it inherits from hold.
pub open spec fn unfolds(orig: Seq<PresetView>, presets: Seq<PresetView>, j: int) -> bool {
    let parents = parents_of(orig[j]);
    let full = inherited(orig[j], presets, parents, parents.len() as int);
    &&& presets[j].has_expanded
    &&& forall|k: int|
        0 <= k < parents.len() ==> (preset_named(presets, #[trigger] parents[k]) matches Some(p)
            ==> presets[p].has_expanded)
    &&& presets[j] == PresetView { depth: presets[j].depth, has_expanded: true, ..full }
}

spec fn same_outline(a: Seq<PresetView>, b: Seq<PresetView>) -> bool {
    &&& a.len() == b.len()
    &&& forall|j: int|
        0 <= j < a.len() ==> (#[trigger] a[j]).name == b[j].name && a[j].inherits == b[j].inherits
}

proof fn lemma_same_outline(orig: Seq<PresetView>, a: Seq<PresetView>, b: Seq<PresetView>)
    requires
        same_outline(orig, a),
        same_outline(orig, b),
    ensures
        same_outline(a, b),
{
    assert forall|j: int| 0 <= j < a.len() implies (#[trigger] a[j]).name == b[j].name
        && a[j].inherits == b[j].inherits by {
        assert(orig[j].name == a[j].name);
    }
}

spec fn is_settled(orig: Seq<PresetView>, presets: Seq<PresetView>, j: int) -> bool {
    if presets[j].has_expanded {
        unfolds(orig, presets, j)
    } else {
        presets[j] == orig[j]
    }
}

spec fn settled_below(
    orig: Seq<PresetView>,
    presets: Seq<PresetView>,
    rank: spec_fn(int) -> nat,
    r: nat,
) -> bool {
    forall|j: int|
        0 <= j < presets.len() && rank(j) < r ==> #[trigger] is_settled(orig, presets, j)
}

spec fn only_fills(
    a: Seq<PresetView>,
    b: Seq<PresetView>,
    rank: spec_fn(int) -> nat,
    r: nat,
    i: int,
) -> bool {
    forall|j: int|
        0 <= j < a.len() && j != i && (a[j].has_expanded || rank(j) >= r) ==> #[trigger] b[j]
            == a[j]
}

proof fn lemma_preset_named_bounds(presets: Seq<PresetView>, name: Seq<char>)
    ensures
        preset_named(presets, name) matches Some(p) ==> 0 <= p < presets.len(),
    decreases presets.len(),
{
    if presets.len() > 0 {
        lemma_preset_named_bounds(presets.drop_last(), name);
    }
}

proof fn lemma_inherited_stable(
    own: PresetView,
    a: Seq<PresetView>,
    b: Seq<PresetView>,
    parents: Seq<Seq<char>>,
    k: int,
)
    requires
        k <= parents.len(),
        same_outline(a, b),
        forall|m: int|
            0 <= m < k ==> (preset_named(a, #[trigger] parents[m]) matches Some(p) ==> a[p]
                == b[p]),
    ensures
        inherited(own, a, parents, k) == inherited(own, b, parents, k),
    decreases k,
{
    if k > 0 {
        lemma_inherited_stable(own, a, b, parents, k - 1);
        lemma_preset_named_stable(a, b, parents[k - 1]);
    }
}

proof fn lemma_settled_stable(
    orig: Seq<PresetView>,
    a: Seq<PresetView>,
    b: Seq<PresetView>,
    j: int,
)
    requires
        same_outline(a, b),
        0 <= j < a.len(),
        is_settled(orig, a, j),
        b[j] == a[j],
        forall|q: int| 0 <= q < a.len() && (#[trigger] a[q]).has_expanded ==> b[q] == a[q],
    ensures
        is_settled(orig, b, j),
{
    if a[j].has_expanded {
        let parents = parents_of(orig[j]);
        assert forall|k: int| 0 <= k < parents.len() implies (preset_named(
            a,
            #[trigger] parents[k],
        ) matches Some(p) ==> a[p] == b[p] && b[p].has_expanded) && preset_named(b, parents[k])
            == preset_named(a, parents[k]) by {
            lemma_preset_named_stable(a, b, parents[k]);
            lemma_preset_named_bounds(a, parents[k]);
        }
        lemma_inherited_stable(orig[j], a, b, parents, parents.len() as int);
    }
}

proof fn lemma_inherited_marks(
    own: PresetView,
    presets: Seq<PresetView>,
    parents: Seq<Seq<char>>,
    k: int,
)
    ensures
        inherited(own, presets, parents, k).has_expanded == own.has_expanded,
        inherited(own, presets, parents, k).name == own.name,
        inherited(own, presets, parents, k).inherits == own.inherits,
    decreases k,
{
    if k > 0 {
        lemma_inherited_marks(own, presets, parents, k - 1);
    }
}

proof fn lemma_expand_at_unfolds(
    orig: Seq<PresetView>,
    presets: Seq<PresetView>,
    rank: spec_fn(int) -> nat,
    i: int,
    depth: int,
    limit: nat,
)
    requires
        same_outline(orig, presets),
        is_ranked(orig, rank),
        forall|j: int| 0 <= j < orig.len() ==> !(#[trigger] orig[j]).has_expanded,
        0 <= i < presets.len(),
        settled_below(orig, presets, rank, rank(i) + 1),
    ensures
        expand_at(presets, i, depth, limit) matches Some(after) ==> {
            &&& same_outline(orig, after)
            &&& after[i].has_expanded
            &&& settled_below(orig, after, rank, rank(i) + 1)
            &&& only_fills(presets, after, rank, rank(i), i)
            &&& presets[i].has_expanded ==> after == presets
        },
    decreases limit, 0int,
{
    assert(is_settled(orig, presets, i));
    if !presets[i].has_expanded && limit > 0 {
        let parents = parents_of(orig[i]);
        let n = parents.len() as int;
        let done = if presets[i].inherits is None {
            Some(presets)
        } else {
            expand_parents(presets, i, depth, (limit - 1) as nat, parents, n)
        };
        if presets[i].inherits is Some {
            lemma_expand_parents_unfolds(
                orig,
                presets,
                rank,
                i,
                depth,
                (limit - 1) as nat,
                n,
            );
        }
        if let Some(middle) = done {
            let after = finish_preset(middle, i, depth);
            assert(expand_at(presets, i, depth, limit) == Some(after));
            lemma_inherited_marks(orig[i], middle, parents, n);
            assert(middle[i] == inherited(orig[i], middle, parents, n));
            assert(same_outline(middle, after));
            assert forall|k: int| 0 <= k < parents.len() implies (preset_named(
                middle,
                #[trigger] parents[k],
            ) matches Some(p) ==> p != i && middle[p] == after[p] && after[p].has_expanded)
                && preset_named(after, parents[k]) == preset_named(middle, parents[k]) by {
                lemma_preset_named_stable(middle, after, parents[k]);
                lemma_preset_named_stable(orig, middle, parents[k]);
                lemma_preset_named_bounds(middle, parents[k]);
                if let Some(p) = preset_named(middle, parents[k]) {
                    assert(inherits_from(orig, i, p));
                }
            }
            lemma_inherited_stable(orig[i], middle, after, parents, n);
            assert(unfolds(orig, after, i));
            assert forall|j: int| 0 <= j < after.len() && rank(j) < rank(i) + 1 implies
                #[trigger] is_settled(orig, after, j) by {
                if j != i {
                    if rank(j) == rank(i) {
                        assert(is_settled(orig, presets, j));
                        assert(middle[j] == presets[j]);
                        lemma_same_outline(orig, presets, middle);
                        lemma_settled_stable_except(orig, presets, middle, j, i);
                    } else {
                        assert(is_settled(orig, middle, j));
                    }
                    lemma_settled_stable_except(orig, middle, after, j, i);
                }
            }
        }
    }
}

proof fn lemma_settled_stable_except(
    orig: Seq<PresetView>,
    a: Seq<PresetView>,
    b: Seq<PresetView>,
    j: int,
    i: int,
)
    requires
        same_outline(a, b),
        0 <= j < a.len(),
        0 <= i < a.len(),
        j != i,
        !a[i].has_expanded,
        is_settled(orig, a, j),
        b[j] == a[j],
        forall|q: int|
            0 <= q < a.len() && q != i && (#[trigger] a[q]).has_expanded ==> b[q] == a[q],
    ensures
        is_settled(orig, b, j),
{
    assert forall|q: int| 0 <= q < a.len() && (#[trigger] a[q]).has_expanded implies b[q]
        == a[q] by {}
    lemma_settled_stable(orig, a, b, j);
}

proof fn lemma_expand_parents_unfolds(
    orig: Seq<PresetView>,
    presets: Seq<PresetView>,
    rank: spec_fn(int) -> nat,
    i: int,
    depth: int,
    limit: nat,
    k: int,
)
    requires
        same_outline(orig, presets),
        is_ranked(orig, rank),
        forall|j: int| 0 <= j < orig.len() ==> !(#[trigger] orig[j]).has_expanded,
        0 <= i < presets.len(),
        presets[i] == orig[i],
        0 <= k <= parents_of(orig[i]).len(),
        settled_below(orig, presets, rank, rank(i)),
    ensures
        expand_parents(presets, i, depth, limit, parents_of(orig[i]), k) matches Some(after) ==> {
            &&& same_outline(orig, after)
            &&& after[i] == inherited(orig[i], after, parents_of(orig[i]), k)
            &&& settled_below(orig, after, rank, rank(i))
            &&& only_fills(presets, after, rank, rank(i), i)
            &&& forall|m: int|
                0 <= m < k ==> (preset_named(after, #[trigger] parents_of(orig[i])[m]) matches Some(
                    p,
                ) ==> after[p].has_expanded)
        },
    decreases limit, k + 1,
{
    let parents = parents_of(orig[i]);
    if k > 0 {
        lemma_expand_parents_unfolds(orig, presets, rank, i, depth, limit, k - 1);
        if let Some(before) = expand_parents(presets, i, depth, limit, parents, k - 1) {
            lemma_inherited_marks(orig[i], before, parents, k - 1);
            lemma_preset_named_stable(orig, before, parents[k - 1]);
            lemma_preset_named_bounds(before, parents[k - 1]);
            if let Some(p) = preset_named(before, parents[k - 1]) {
                assert(inherits_from(orig, i, p));
                assert(rank(p) < rank(i));
                assert forall|j: int| 0 <= j < before.len() && rank(j) < rank(p) + 1 implies
                    #[trigger] is_settled(orig, before, j) by {}
                lemma_expand_at_unfolds(orig, before, rank, p, depth + 1, limit);
                if let Some(middle) = expand_at(before, p, depth + 1, limit) {
                    let after = middle.update(i, inherit_from(middle[i], middle[p]));
                    assert(middle[i] == before[i]);
                    lemma_same_outline(orig, before, middle);
                    assert(same_outline(middle, after));
                    assert forall|m: int| 0 <= m < k implies (preset_named(
                        after,
                        #[trigger] parents[m],
                    ) matches Some(q) ==> q != i && after[q] == middle[q]
                        && after[q].has_expanded && (m < k - 1 ==> before[q] == after[q]))
                        && preset_named(after, parents[m]) == preset_named(before, parents[m])
                        && preset_named(after, parents[m]) == preset_named(
                        middle,
                        parents[m],
                    ) by {
                        lemma_preset_named_stable(before, after, parents[m]);
                        lemma_preset_named_stable(middle, after, parents[m]);
                        lemma_preset_named_stable(orig, after, parents[m]);
                        lemma_preset_named_bounds(after, parents[m]);
                        if let Some(q) = preset_named(after, parents[m]) {
                            assert(inherits_from(orig, i, q));
                            if m < k - 1 {
                                assert(before[q].has_expanded);
                            }
                        }
                    }
                    lemma_inherited_stable(orig[i], before, after, parents, k - 1);
                    assert(after[p] == middle[p]);
                    assert forall|j: int| 0 <= j < after.len() && rank(j) < rank(i) implies
                        #[trigger] is_settled(orig, after, j) by {
                        if rank(j) < rank(p) + 1 {
                            assert(is_settled(orig, middle, j));
                        } else {
                            assert(is_settled(orig, before, j));
                            assert(middle[j] == before[j]);
                            assert forall|q: int|
                                0 <= q < before.len() && (#[trigger] before[q]).has_expanded implies middle[q]
                                == before[q] by {
                                assert(q == p ==> middle == before);
                            }
                            lemma_settled_stable(orig, before, middle, j);
                        }
                        lemma_settled_stable_except(orig, middle, after, j, i);
                    }
                    assert forall|j: int|
                        0 <= j < presets.len() && j != i && (presets[j].has_expanded || rank(j)
                            >= rank(i)) implies #[trigger] after[j] == presets[j] by {
                        assert(before[j] == presets[j]);
                        assert(j == p ==> middle == before);
                        assert(middle[j] == before[j]);
                    }
                }
            }
        }
    }
}

proof fn lemma_expand_first_unfolds(presets: Seq<PresetView>, rank: spec_fn(int) -> nat, n: int)
    requires
        is_ranked(presets, rank),
        forall|j: int| 0 <= j < presets.len() ==> !(#[trigger] presets[j]).has_expanded,
        n <= presets.len(),
    ensures
        expand_first(presets, n) matches Some(after) ==> {
            &&& same_outline(presets, after)
            &&& forall|j: int| 0 <= j < after.len() ==> #[trigger] is_settled(presets, after, j)
            &&& forall|j: int| 0 <= j < n ==> (#[trigger] after[j]).has_expanded
        },
    decreases n,
{
    if n <= 0 {
        assert forall|j: int| 0 <= j < presets.len() implies #[trigger] is_settled(
            presets,
            presets,
            j,
        ) by {
            assert(!presets[j].has_expanded);
        }
    } else {
        lemma_expand_first_unfolds(presets, rank, n - 1);
        if let Some(before) = expand_first(presets, n - 1) {
            lemma_expand_at_unfolds(presets, before, rank, n - 1, 0, presets.len());
            if let Some(after) = expand_at(before, n - 1, 0, presets.len()) {
                lemma_same_outline(presets, before, after);
                assert forall|q: int| 0 <= q < before.len() && (#[trigger] before[q]).has_expanded implies after[q]
                    == before[q] by {
                    assert(q == n - 1 ==> after == before);
                }
                assert forall|j: int| 0 <= j < after.len() implies #[trigger] is_settled(
                    presets,
                    after,
                    j,
                ) by {
                    if rank(j) >= rank(n - 1) + 1 {
                        assert(is_settled(presets, before, j));
                        assert(after[j] == before[j]);
                        lemma_settled_stable(presets, before, after, j);
                    }
                }
            }
        }
    }
}

/// The generator of the first of the first `k` parents that has one.
pub open spec fn first_generator(
    presets: Seq<PresetView>,
    parents: Seq<Seq<char>>,
    k: int,
) -> Option<Seq<char>>
    decreases k,
{
    if k <= 0 {
        None
    } else {
        match first_generator(presets, parents, k - 1) {
            Some(found) => Some(found),
            None => match preset_named(presets, parents[k - 1]) {
                Some(p) => presets[p].generator,
                None => None,
            },
        }
    }
}

/// The build directory of the first of the first `k` parents that has one.
pub open spec fn first_binary_dir(
    presets: Seq<PresetView>,
    parents: Seq<Seq<char>>,
    k: int,
) -> Option<Seq<char>>
    decreases k,
{
    if k <= 0 {
        None
    } else {
        match first_binary_dir(presets, parents, k - 1) {
            Some(found) => Some(found),
            None => match preset_named(presets, parents[k - 1]) {
                Some(p) => presets[p].binary_dir,
                None => None,
            },
        }
    }
}

/// The value of a variable of a preset.
pub open spec fn value_in(preset: PresetView, key: Seq<char>) -> Option<CacheValueView> {
    match preset.variables {
        Some(vars) => if vars.contains_key(key) {
            Some(vars[key])
        } else {
            None
        },
        None => None,
    }
}

/// The value of a variable in the first of the first `k` parents that has it.
pub open spec fn first_value(
    presets: Seq<PresetView>,
    parents: Seq<Seq<char>>,
    key: Seq<char>,
    k: int,
) -> Option<CacheValueView>
    decreases k,
{
    if k <= 0 {
        None
    } else {
        match first_value(presets, parents, key, k - 1) {
            Some(found) => Some(found),
            None => match preset_named(presets, parents[k - 1]) {
                Some(p) => value_in(presets[p], key),
                None => None,
            },
        }
    }
}

proof fn lemma_inherited_fields(
    own: PresetView,
    presets: Seq<PresetView>,
    parents: Seq<Seq<char>>,
    key: Seq<char>,
    k: int,
)
    ensures
        ({
            let full = inherited(own, presets, parents, k);
            &&& full.generator == (if own.generator is Some {
                own.generator
            } else {
                first_generator(presets, parents, k)
            })
            &&& full.binary_dir == (if own.binary_dir is Some {
                own.binary_dir
            } else {
                first_binary_dir(presets, parents, k)
            })
            &&& value_in(full, key) == (if value_in(own, key) is Some {
                value_in(own, key)
            } else {
                first_value(presets, parents, key, k)
            })
        }),
    decreases k,
{
    if k > 0 {
        lemma_inherited_fields(own, presets, parents, key, k - 1);
    }
}

/// Once everything that presets inherit is filled in, a preset has its own generator, build
/// directory and value of a variable where it has one, and otherwise that of the first preset
/// with one, filled in too, in the order in which it inherits from them.
pub proof fn law_first_parent_with_a_field_gives_it(
    presets: Seq<PresetView>,
    rank: spec_fn(int) -> nat,
    i: int,
    key: Seq<char>,
)
    requires
        is_ranked(presets, rank),
        forall|j: int| 0 <= j < presets.len() ==> !(#[trigger] presets[j]).has_expanded,
        0 <= i < presets.len(),
    ensures
        expand_first(presets, presets.len() as int) matches Some(after) ==> {
            let own = presets[i];
            let parents = parents_of(own);
            let n = parents.len() as int;
            &&& after[i].generator == (if own.generator is Some {
                own.generator
            } else {
                first_generator(after, parents, n)
            })
            &&& after[i].binary_dir == (if own.binary_dir is Some {
                own.binary_dir
            } else {
                first_binary_dir(after, parents, n)
            })
            &&& value_in(after[i], key) == (if value_in(own, key) is Some {
                value_in(own, key)
            } else {
                first_value(after, parents, key, n)
            })
        },
{
    lemma_expand_first_unfolds(presets, rank, presets.len() as int);
    if let Some(after) = expand_first(presets, presets.len() as int) {
        let parents = parents_of(presets[i]);
        assert(is_settled(presets, after, i));
        assert(after[i].has_expanded);
        lemma_inherited_fields(presets[i], after, parents, key, parents.len() as int);
    }
}

/// Preset `c` inherits from one of the circle.
#[verifier::opaque]
pub open spec fn inherits_from_circle(
    presets: Seq<PresetView>,
    circle: Set<int>,
    c: int,
) -> bool {
    exists|d: int| circle.contains(d) && #[trigger] inherits_from(presets, c, d)
}

/// Every preset of the circle inherits from one of it, and none has what it inherits yet.
pub open spec fn is_circle(presets: Seq<PresetView>, circle: Set<int>) -> bool {
    forall|c: int| #[trigger]
        circle.contains(c) ==> 0 <= c < presets.len() && !presets[c].has_expanded
            && inherits_from_circle(presets, circle, c)
}

proof fn lemma_circle_parent(presets: Seq<PresetView>, circle: Set<int>, c: int) -> (k: int)
    requires
        inherits_from_circle(presets, circle, c),
    ensures
        presets[c].inherits is Some,
        0 <= k < presets[c].inherits->0.len(),
        preset_named(presets, presets[c].inherits->0[k]) matches Some(d) && circle.contains(d),
{
    reveal(inherits_from_circle);
    let d = choose|d: int| circle.contains(d) && #[trigger] inherits_from(presets, c, d);
    let parents = presets[c].inherits->0;
    choose|k: int| 0 <= k < parents.len() && preset_named(presets, #[trigger] parents[k]) == Some(d)
}

proof fn lemma_in_circle(presets: Seq<PresetView>, circle: Set<int>, c: int, d: int)
    requires
        circle.contains(d),
        inherits_from(presets, c, d),
    ensures
        inherits_from_circle(presets, circle, c),
{
    reveal(inherits_from_circle);
}

proof fn lemma_circle_stable(a: Seq<PresetView>, b: Seq<PresetView>, circle: Set<int>)
    requires
        same_outline(a, b),
        is_circle(a, circle),
        forall|c: int| #[trigger] circle.contains(c) ==> !b[c].has_expanded,
    ensures
        is_circle(b, circle),
{
    assert forall|c: int| #[trigger] circle.contains(c) implies 0 <= c < b.len()
        && !b[c].has_expanded && inherits_from_circle(b, circle, c) by {
        let k = lemma_circle_parent(a, circle, c);
        let d = preset_named(a, a[c].inherits->0[k])->0;
        lemma_preset_named_stable(a, b, a[c].inherits->0[k]);
        assert(a[c].inherits == b[c].inherits);
        assert(preset_named(b, b[c].inherits->0[k]) == Some(d));
        assert(inherits_from(b, c, d));
        lemma_in_circle(b, circle, c, d);
    }
}

proof fn lemma_circle_stays(
    presets: Seq<PresetView>,
    circle: Set<int>,
    i: int,
    depth: int,
    limit: nat,
)
    requires
        is_circle(presets, circle),
        0 <= i < presets.len(),
    ensures
        expand_at(presets, i, depth, limit) matches Some(after) ==> {
            &&& same_outline(presets, after)
            &&& is_circle(after, circle)
            &&& after[i].has_expanded
        },
    decreases limit, 0int,
{
    if !presets[i].has_expanded && limit > 0 {
        if let Some(parents) = presets[i].inherits {
            let n = parents.len() as int;
            lemma_circle_stays_through_parents(
                presets,
                circle,
                i,
                depth,
                (limit - 1) as nat,
                parents,
                n,
            );
            if let Some(middle) = expand_parents(
                presets,
                i,
                depth,
                (limit - 1) as nat,
                parents,
                n,
            ) {
                assert(!circle.contains(i)) by {
                    if circle.contains(i) {
                        let k = lemma_circle_parent(presets, circle, i);
                        assert(preset_named(presets, parents[k]) is Some);
                    }
                }
                let after = finish_preset(middle, i, depth);
                assert(expand_at(presets, i, depth, limit) == Some(after));
                assert(same_outline(middle, after));
                assert(same_outline(presets, after));
                lemma_circle_stable(middle, after, circle);
            }
        } else {
            assert(!circle.contains(i)) by {
                if circle.contains(i) {
                    let k = lemma_circle_parent(presets, circle, i);
                }
            }
            let after = finish_preset(presets, i, depth);
            assert(expand_at(presets, i, depth, limit) == Some(after));
            assert(same_outline(presets, after));
            lemma_circle_stable(presets, after, circle);
        }
    }
}

proof fn lemma_circle_stays_through_parents(
    presets: Seq<PresetView>,
    circle: Set<int>,
    i: int,
    depth: int,
    limit: nat,
    parents: Seq<Seq<char>>,
    k: int,
)
    requires
        is_circle(presets, circle),
        0 <= i < presets.len(),
        0 <= k <= parents.len(),
    ensures
        expand_parents(presets, i, depth, limit, parents, k) matches Some(after) ==> {
            &&& same_outline(presets, after)
            &&& is_circle(after, circle)
            &&& forall|m: int|
                0 <= m < k ==> (preset_named(presets, #[trigger] parents[m]) matches Some(p)
                    ==> !circle.contains(p))
        },
    decreases limit, k + 1,
{
    if k > 0 {
        lemma_circle_stays_through_parents(presets, circle, i, depth, limit, parents, k - 1);
        if let Some(before) = expand_parents(presets, i, depth, limit, parents, k - 1) {
            lemma_preset_named_stable(presets, before, parents[k - 1]);
            lemma_preset_named_bounds(before, parents[k - 1]);
            if let Some(p) = preset_named(before, parents[k - 1]) {
                lemma_circle_stays(before, circle, p, depth + 1, limit);
                if let Some(middle) = expand_at(before, p, depth + 1, limit) {
                    let after = middle.update(i, inherit_from(middle[i], middle[p]));
                    assert(same_outline(before, after));
                    lemma_circle_stable(middle, after, circle);
                }
            }
        }
    }
}

proof fn lemma_circle_stays_first(presets: Seq<PresetView>, circle: Set<int>, n: int)
    requires
        is_circle(presets, circle),
        n <= presets.len(),
    ensures
        expand_first(presets, n) matches Some(after) ==> same_outline(presets, after) && is_circle(
            after,
            circle,
        ) && (forall|c: int| #[trigger] circle.contains(c) ==> c >= n),
    decreases n,
{
    if n > 0 {
        lemma_circle_stays_first(presets, circle, n - 1);
        if let Some(before) = expand_first(presets, n - 1) {
            lemma_circle_stays(before, circle, n - 1, 0, presets.len());
        }
    }
}

/// Presets that inherit from one another in a circle cannot be filled in.
pub proof fn law_circular_presets_do_not_expand(presets: Seq<PresetView>, circle: Set<int>, c: int)
    requires
        is_circle(presets, circle),
        circle.contains(c),
    ensures
        expand_first(presets, presets.len() as int) is None,
{
    lemma_circle_stays_first(presets, circle, presets.len() as int);
}

} // verus!
