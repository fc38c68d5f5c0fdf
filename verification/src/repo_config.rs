//! What is set for a repository.

use crate::text;
use vstd::prelude::*;

verus! {

/// The settings of a repository.
pub struct RepoConfig {
    pub url: String,
    /// Where the repository is: an absolute path, or one below the directory of the settings.
    pub path: String,
    /// The name by which the repository is known here.
    pub identification_name: String,
    pub extra_conan_options: Vec<String>,
    pub extra_cmake_options: Vec<String>,
    /// What the generator of a preset has to contain.
    pub cmake_generator_keyword: String,
    pub conan_output_folder: String,
    /// Whether the repository finds its toolchain by itself.
    pub conan_toolchain_managed_by_cmake: bool,
    /// Whether the repository may be downloaded where its path is of no use.
    pub auto_clone: bool,
    /// Whether the repository takes part.
    pub enable: bool,
}

/// The content of a [`RepoConfig`].
pub struct RepoConfigView {
    pub url: Seq<char>,
    pub path: Seq<char>,
    pub identification_name: Seq<char>,
    pub extra_conan_options: Seq<Seq<char>>,
    pub extra_cmake_options: Seq<Seq<char>>,
    pub cmake_generator_keyword: Seq<char>,
    pub conan_output_folder: Seq<char>,
    pub conan_toolchain_managed_by_cmake: bool,
    pub auto_clone: bool,
    pub enable: bool,
}

impl View for RepoConfig {
    type V = RepoConfigView;

    open spec fn view(&self) -> RepoConfigView {
        RepoConfigView {
            url: self.url@,
            path: self.path@,
            identification_name: self.identification_name@,
            extra_conan_options: text::texts(self.extra_conan_options@),
            extra_cmake_options: text::texts(self.extra_cmake_options@),
            cmake_generator_keyword: self.cmake_generator_keyword@,
            conan_output_folder: self.conan_output_folder@,
            conan_toolchain_managed_by_cmake: self.conan_toolchain_managed_by_cmake,
            auto_clone: self.auto_clone,
            enable: self.enable,
        }
    }
}

/// The contents of some settings.
pub open spec fn config_views(configs: Seq<RepoConfig>) -> Seq<RepoConfigView> {
    Seq::new(configs.len(), |i: int| configs[i]@)
}

/// The settings of a repository of which nothing is known.
pub open spec fn default_config() -> RepoConfigView {
    RepoConfigView {
        url: Seq::empty(),
        path: Seq::empty(),
        identification_name: Seq::empty(),
        extra_conan_options: Seq::empty(),
        extra_cmake_options: Seq::empty(),
        cmake_generator_keyword: "Visual Studio"@,
        conan_output_folder: "build/conan"@,
        conan_toolchain_managed_by_cmake: true,
        auto_clone: false,
        enable: true,
    }
}

impl Default for RepoConfig {
    fn default() -> (r: Self)
        ensures
            r@ == default_config(),
    {
        let r = RepoConfig {
            url: String::new(),
            path: String::new(),
            identification_name: String::new(),
            extra_conan_options: Vec::new(),
            extra_cmake_options: Vec::new(),
            cmake_generator_keyword: "Visual Studio".to_owned(),
            conan_output_folder: "build/conan".to_owned(),
            conan_toolchain_managed_by_cmake: true,
            auto_clone: false,
            enable: true,
        };
        assert(r@.url =~= Seq::empty());
        assert(r@.path =~= Seq::empty());
        assert(r@.identification_name =~= Seq::empty());
        assert(r@.extra_conan_options =~= Seq::empty());
        assert(r@.extra_cmake_options =~= Seq::empty());
        r
    }
}

impl RepoConfig {
    /// The settings of a repository of which nothing is known.
    pub fn empty() -> (r: Self)
        ensures
            r@ == default_config(),
    {
        RepoConfig::default()
    }

    /// The settings that were kept. What is missing is empty; a repository that says nothing else
    /// has its packages in `build/conan`, uses Visual Studio, may be downloaded and takes part.
    pub fn from_stored(stored: StoredRepoConfig) -> (r: Self)
        ensures
            r@ == stored_config(stored),
    {
        let r = RepoConfig {
            url: text_or(stored.url, ""),
            path: text_or(stored.path, ""),
            identification_name: String::new(),
            extra_conan_options: list_or_empty(stored.extra_conan_options),
            extra_cmake_options: list_or_empty(stored.extra_cmake_options),
            cmake_generator_keyword: text_or(stored.cmake_generator_keyword, "Visual Studio"),
            conan_output_folder: text_or(stored.conan_output_folder, "build/conan"),
            conan_toolchain_managed_by_cmake: flag_or(
                stored.conan_toolchain_managed_by_cmake,
                false,
            ),
            auto_clone: flag_or(stored.auto_clone, true),
            enable: flag_or(stored.enable, true),
        };
        assert(r@.identification_name =~= Seq::empty());
        r
    }
}

/// The settings of a repository as they are kept.
pub struct StoredRepoConfig {
    pub url: Option<String>,
    pub path: Option<String>,
    pub extra_conan_options: Option<Vec<String>>,
    pub extra_cmake_options: Option<Vec<String>>,
    pub cmake_generator_keyword: Option<String>,
    pub conan_output_folder: Option<String>,
    pub conan_toolchain_managed_by_cmake: Option<bool>,
    pub auto_clone: Option<bool>,
    pub enable: Option<bool>,
}

/// What settings that were kept mean.
pub open spec fn stored_config(stored: StoredRepoConfig) -> RepoConfigView {
    RepoConfigView {
        url: stored_text(stored.url, ""@),
        path: stored_text(stored.path, ""@),
        identification_name: Seq::empty(),
        extra_conan_options: stored_list(stored.extra_conan_options),
        extra_cmake_options: stored_list(stored.extra_cmake_options),
        cmake_generator_keyword: stored_text(stored.cmake_generator_keyword, "Visual Studio"@),
        conan_output_folder: stored_text(stored.conan_output_folder, "build/conan"@),
        conan_toolchain_managed_by_cmake: stored_flag(
            stored.conan_toolchain_managed_by_cmake,
            false,
        ),
        auto_clone: stored_flag(stored.auto_clone, true),
        enable: stored_flag(stored.enable, true),
    }
}

/// A text that was kept, or another one.
pub open spec fn stored_text(stored: Option<String>, otherwise: Seq<char>) -> Seq<char> {
    match stored {
        Some(s) => s@,
        None => otherwise,
    }
}

/// A list that was kept, or the empty one.
pub open spec fn stored_list(stored: Option<Vec<String>>) -> Seq<Seq<char>> {
    match stored {
        Some(list) => text::texts(list@),
        None => Seq::empty(),
    }
}

/// A flag that was kept, or another one.
pub open spec fn stored_flag(stored: Option<bool>, otherwise: bool) -> bool {
    match stored {
        Some(flag) => flag,
        None => otherwise,
    }
}

fn text_or(stored: Option<String>, otherwise: &str) -> (r: String)
    ensures
        r@ == stored_text(stored, otherwise@),
{
    match stored {
        Some(s) => s,
        None => otherwise.to_owned(),
    }
}

fn list_or_empty(stored: Option<Vec<String>>) -> (r: Vec<String>)
    ensures
        text::texts(r@) == stored_list(stored),
{
    match stored {
        Some(list) => list,
        None => Vec::new(),
    }
}

fn flag_or(stored: Option<bool>, otherwise: bool) -> (r: bool)
    ensures
        r == stored_flag(stored, otherwise),
{
    match stored {
        Some(flag) => flag,
        None => otherwise,
    }
}

} // verus!
