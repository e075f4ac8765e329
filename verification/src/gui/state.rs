//! Front-end state: themes, search modes, favorite searches, file categories,
//! pagination of results and the size-filter text of the search bar.

use vstd::prelude::*;
use crate::text::{
    decimal, format_decimal, push_str, lowercase, to_lowercase, str_eq, str_trim, trim_spec,
    chars_of, is_digit, parse_u64_spec, parse_u64_chars, find_char, string_from_range,
    is_ascii_text, ascii_lower, ascii_upper, lemma_ascii_case_round_trip,
};
use crate::search::{first_dash, lemma_first_dash};
use crate::timeval::now;
use crate::utils::{video_extension, audio_extension, is_video_extension, is_audio_extension, simple_extension};

verus! {

/// Colour themes of the front end.
#[derive(Clone, Copy, Debug, PartialEq, Eq, Structural)]
pub enum AppTheme {
    Light,
    Dark,
    Blue,
    Green,
    Purple,
}

impl Default for AppTheme {
    fn default() -> (r: AppTheme)
        ensures
            r == AppTheme::Blue,
    {
        AppTheme::Blue
    }
}

/// The name shown for a theme.
pub open spec fn theme_name(t: AppTheme) -> Seq<char> {
    match t {
        AppTheme::Light => "Light"@,
        AppTheme::Dark => "Dark"@,
        AppTheme::Blue => "Blue"@,
        AppTheme::Green => "Green"@,
        AppTheme::Purple => "Purple"@,
    }
}

impl AppTheme {
    /// The name shown for the theme.
    pub fn display_name(&self) -> (r: &'static str)
        ensures
            r@ == theme_name(*self),
    {
        match self {
            AppTheme::Light => "Light",
            AppTheme::Dark => "Dark",
            AppTheme::Blue => "Blue",
            AppTheme::Green => "Green",
            AppTheme::Purple => "Purple",
        }
    }
}

/// What a search looks at: file names or file contents.
#[derive(Clone, Copy, Debug, PartialEq, Eq, Structural)]
pub enum SearchMode {
    Filename,
    Content,
}

impl Default for SearchMode {
    fn default() -> (r: SearchMode)
        ensures
            r == SearchMode::Filename,
    {
        SearchMode::Filename
    }
}

/// The name shown for a search mode.
pub open spec fn mode_name(m: SearchMode) -> Seq<char> {
    match m {
        SearchMode::Filename => "Filename"@,
        SearchMode::Content => "Content"@,
    }
}

impl SearchMode {
    /// The name shown for the mode.
    pub fn display_name(&self) -> (r: &'static str)
        ensures
            r@ == mode_name(*self),
    {
        match self {
            SearchMode::Filename => "Filename",
            SearchMode::Content => "Content",
        }
    }
}

/// A saved search: what to look for, where, and how.
#[derive(Debug)]
pub struct FavoriteSearch {
    pub id: String,
    pub name: String,
    pub search_pattern: String,
    pub search_path: String,
    pub search_mode: SearchMode,
    pub use_regex: bool,
    pub use_glob: bool,
    pub case_sensitive: bool,
    pub size_filter: String,
    pub created_at: u64,
}

/// The value of a `FavoriteSearch`.
pub struct FavoriteView {
    pub id: Seq<char>,
    pub name: Seq<char>,
    pub search_pattern: Seq<char>,
    pub search_path: Seq<char>,
    pub search_mode: SearchMode,
    pub use_regex: bool,
    pub use_glob: bool,
    pub case_sensitive: bool,
    pub size_filter: Seq<char>,
    pub created_at: u64,
}

impl View for FavoriteSearch {
    type V = FavoriteView;

    open spec fn view(&self) -> FavoriteView {
        FavoriteView {
            id: self.id@,
            name: self.name@,
            search_pattern: self.search_pattern@,
            search_path: self.search_path@,
            search_mode: self.search_mode,
            use_regex: self.use_regex,
            use_glob: self.use_glob,
            case_sensitive: self.case_sensitive,
            size_filter: self.size_filter@,
            created_at: self.created_at,
        }
    }
}

impl Clone for FavoriteSearch {
    fn clone(&self) -> (r: Self)
        ensures
            r@ == self@,
    {
        FavoriteSearch {
            id: self.id.clone(),
            name: self.name.clone(),
            search_pattern: self.search_pattern.clone(),
            search_path: self.search_path.clone(),
            search_mode: self.search_mode,
            use_regex: self.use_regex,
            use_glob: self.use_glob,
            case_sensitive: self.case_sensitive,
            size_filter: self.size_filter.clone(),
            created_at: self.created_at,
        }
    }
}

/// The identifier of a favorite created at `millis` milliseconds after the Unix epoch.
pub open spec fn favorite_id(millis: nat) -> Seq<char> {
    "fav_"@ + decimal(millis)
}

/// `SystemTime::duration_since(UNIX_EPOCH)`, then `Duration::as_millis`: the time's
/// distance from the Unix epoch in whole milliseconds, or `None` for a time before the
/// epoch (where `duration_since` returns an error). Nothing is claimed of the value.
#[verifier::external_body]
fn epoch_millis(t: std::time::SystemTime) -> Option<u128> {
    match t.duration_since(std::time::UNIX_EPOCH) {
        Ok(d) => Some(d.as_millis()),
        Err(_) => None,
    }
}

/// `SystemTime::duration_since(UNIX_EPOCH)`, then `Duration::as_secs`: the time's
/// distance from the Unix epoch in whole seconds, or `None` for a time before the
/// epoch. Nothing is claimed of the value.
#[verifier::external_body]
fn epoch_secs(t: std::time::SystemTime) -> Option<u64> {
    match t.duration_since(std::time::UNIX_EPOCH) {
        Ok(d) => Some(d.as_secs()),
        Err(_) => None,
    }
}

impl FavoriteSearch {
    /// A favorite made at the given clock readings: its id is `fav_` and the milliseconds,
    /// its creation time the seconds.
    #[allow(clippy::too_many_arguments)]
    pub fn new_at(
        name: String,
        search_pattern: String,
        search_path: String,
        search_mode: SearchMode,
        use_regex: bool,
        use_glob: bool,
        case_sensitive: bool,
        size_filter: String,
        millis: u128,
        secs: u64,
    ) -> (r: Self)
        ensures
            r@ == (FavoriteView {
                id: favorite_id(millis as nat),
                name: name@,
                search_pattern: search_pattern@,
                search_path: search_path@,
                search_mode,
                use_regex,
                use_glob,
                case_sensitive,
                size_filter: size_filter@,
                created_at: secs,
            }),
    {
        let mut id = "fav_".to_string();
        let digits = format_decimal(millis);
        push_str(&mut id, digits.as_str());
        FavoriteSearch {
            id,
            name,
            search_pattern,
            search_path,
            search_mode,
            use_regex,
            use_glob,
            case_sensitive,
            size_filter,
            created_at: secs,
        }
    }

    /// A favorite made now: as `new_at` with the clock's milliseconds and seconds
    /// since the Unix epoch (each 0 when the clock reads a time before the epoch).
    #[allow(clippy::too_many_arguments)]
    pub fn new(
        name: String,
        search_pattern: String,
        search_path: String,
        search_mode: SearchMode,
        use_regex: bool,
        use_glob: bool,
        case_sensitive: bool,
        size_filter: String,
    ) -> (r: Self)
        ensures
            exists|millis: nat, secs: u64| r@ == (FavoriteView {
                id: favorite_id(millis),
                name: name@,
                search_pattern: search_pattern@,
                search_path: search_path@,
                search_mode,
                use_regex,
                use_glob,
                case_sensitive,
                size_filter: size_filter@,
                created_at: secs,
            }),
    {
        let millis = match epoch_millis(now()) {
            Some(m) => m,
            None => 0,
        };
        let secs = match epoch_secs(now()) {
            Some(t) => t,
            None => 0,
        };
        Self::new_at(
            name,
            search_pattern,
            search_path,
            search_mode,
            use_regex,
            use_glob,
            case_sensitive,
            size_filter,
            millis,
            secs,
        )
    }
}

/// The views of a sequence of favorites.
pub open spec fn favorite_views(v: Seq<FavoriteSearch>) -> Seq<FavoriteView> {
    v.map_values(|f: FavoriteSearch| f@)
}

/// `s` without the favorites whose id is `id`, order kept.
pub open spec fn without_id(s: Seq<FavoriteView>, id: Seq<char>) -> Seq<FavoriteView>
    decreases s.len(),
{
    if s.len() == 0 {
        Seq::empty()
    } else {
        let prev = without_id(s.drop_last(), id);
        if s.last().id == id {
            prev
        } else {
            prev.push(s.last())
        }
    }
}

/// The position of the first favorite with id `id`, if any.
pub open spec fn first_with_id(s: Seq<FavoriteView>, id: Seq<char>) -> Option<int> {
    if exists|i: int| 0 <= i < s.len() && s[i].id == id {
        Some(choose|i: int| 0 <= i < s.len() && s[i].id == id && forall|j: int| 0 <= j < i ==> s[j].id != id)
    } else {
        None
    }
}

/// `first_with_id` is the least position holding the id: a position whose favorite
/// carries `id`, with none before it carrying it, is the one found; and what is found
/// is such a position.
pub proof fn lemma_first_with_id(s: Seq<FavoriteView>, id: Seq<char>, i: int)
    ensures
        (0 <= i < s.len() && s[i].id == id && forall|j: int| 0 <= j < i ==> (#[trigger] s[j]).id != id)
            ==> first_with_id(s, id) == Some(i),
        first_with_id(s, id) matches Some(k) ==> {
            &&& 0 <= k < s.len()
            &&& s[k].id == id
            &&& forall|j: int| 0 <= j < k ==> (#[trigger] s[j]).id != id
        },
{
    if exists|k: int| 0 <= k < s.len() && s[k].id == id {
        let w = choose|k: int| 0 <= k < s.len() && s[k].id == id;
        least_with_id(s, id, w);
        let k = choose|k: int| 0 <= k < s.len() && s[k].id == id && forall|j: int| 0 <= j < k ==> s[j].id != id;
        assert(0 <= k < s.len() && s[k].id == id && forall|j: int| 0 <= j < k ==> s[j].id != id);
        if 0 <= i < s.len() && s[i].id == id && forall|j: int| 0 <= j < i ==> (#[trigger] s[j]).id != id {
            if k < i {
                assert(s[k].id != id);
            }
            if i < k {
                assert(s[i].id != id);
            }
        }
    }
}

/// A position holding `id` at or before `w`, with none before it holding it.
proof fn least_with_id(s: Seq<FavoriteView>, id: Seq<char>, w: int) -> (m: int)
    requires
        0 <= w < s.len(),
        s[w].id == id,
    ensures
        0 <= m <= w,
        s[m].id == id,
        forall|j: int| 0 <= j < m ==> (#[trigger] s[j]).id != id,
    decreases w,
{
    if exists|j: int| 0 <= j < w && s[j].id == id {
        let j = choose|j: int| 0 <= j < w && s[j].id == id;
        least_with_id(s, id, j)
    } else {
        w
    }
}

/// The saved searches, in the order they were added.
#[derive(Debug)]
pub struct Favorites {
    pub favorites: Vec<FavoriteSearch>,
}

impl Default for Favorites {
    fn default() -> (r: Favorites)
        ensures
            r.favorites@.len() == 0,
    {
        Favorites { favorites: Vec::new() }
    }
}

impl Favorites {
    /// No favorites.
    pub fn new() -> (r: Self)
        ensures
            r.favorites@.len() == 0,
    {
        Favorites { favorites: Vec::new() }
    }

    /// Adds a favorite at the end.
    pub fn add(&mut self, favorite: FavoriteSearch)
        ensures
            favorite_views(final(self).favorites@) == favorite_views(old(self).favorites@).push(favorite@),
    {
        let ghost before = favorite_views(self.favorites@);
        self.favorites.push(favorite);
        assert(favorite_views(self.favorites@) =~= before.push(favorite@));
    }

    /// Removes every favorite whose id is `id`; the others keep their order.
    pub fn remove(&mut self, id: &str)
        ensures
            favorite_views(final(self).favorites@) == without_id(favorite_views(old(self).favorites@), id@),
    {
        let ghost all = favorite_views(self.favorites@);
        let mut kept: Vec<FavoriteSearch> = Vec::new();
        let mut i: usize = 0;
        while i < self.favorites.len()
            invariant
                i <= self.favorites@.len(),
                all == favorite_views(self.favorites@),
                favorite_views(kept@) == without_id(all.take(i as int), id@),
            decreases self.favorites@.len() - i,
        {
            assert(all.take(i + 1).drop_last() =~= all.take(i as int));
            assert(all.take(i + 1).last() == self.favorites@[i as int]@);
            if !str_eq(self.favorites[i].id.as_str(), id) {
                let ghost before = favorite_views(kept@);
                kept.push(self.favorites[i].clone());
                assert(favorite_views(kept@) =~= before.push(self.favorites@[i as int]@));
            }
            i = i + 1;
        }
        assert(all.take(all.len() as int) =~= all);
        self.favorites = kept;
    }

    /// The first favorite whose id is `id`, if any.
    pub fn get(&self, id: &str) -> (r: Option<&FavoriteSearch>)
        ensures
            match first_with_id(favorite_views(self.favorites@), id@) {
                Some(i) => r matches Some(f) && f@ == self.favorites@[i]@,
                None => r is None,
            },
    {
        let ghost all = favorite_views(self.favorites@);
        let mut i: usize = 0;
        while i < self.favorites.len()
            invariant
                i <= self.favorites@.len(),
                all == favorite_views(self.favorites@),
                forall|j: int| 0 <= j < i ==> all[j].id != id@,
            decreases self.favorites@.len() - i,
        {
            if str_eq(self.favorites[i].id.as_str(), id) {
                assert(all[i as int].id == id@);
                proof { lemma_first_with_id(all, id@, i as int); }
                return Some(&self.favorites[i]);
            }
            i = i + 1;
        }
        None
    }
}

proof fn lemma_without_id(s: Seq<FavoriteView>, id: Seq<char>)
    ensures
        forall|i: int| 0 <= i < without_id(s, id).len() ==> (#[trigger] without_id(s, id)[i]).id != id,
        forall|i: int| 0 <= i < without_id(s, id).len() ==> s.contains(#[trigger] without_id(s, id)[i]),
        forall|i: int| 0 <= i < s.len() && (#[trigger] s[i]).id != id ==> without_id(s, id).contains(s[i]),
    decreases s.len(),
{
    if s.len() > 0 {
        let p = s.drop_last();
        lemma_without_id(p, id);
        let w = without_id(s, id);
        let wp = without_id(p, id);
        assert forall|i: int| 0 <= i < w.len() implies s.contains(#[trigger] w[i]) by {
            if i < wp.len() {
                assert(w[i] == wp[i]);
                let k = choose|k: int| 0 <= k < p.len() && p[k] == wp[i];
                assert(s[k] == p[k]);
            } else {
                assert(s[s.len() - 1] == w[i]);
            }
        }
        assert forall|i: int| 0 <= i < s.len() && (#[trigger] s[i]).id != id implies w.contains(s[i]) by {
            if i < p.len() {
                assert(p[i] == s[i]);
                let k = choose|k: int| 0 <= k < wp.len() && wp[k] == p[i];
                assert(w[k] == wp[k]);
            } else {
                assert(w[w.len() - 1] == s[i]);
            }
        }
    }
}

/// What the favorites give back of their changes: after removing an id no favorite
/// carries it and every other favorite stays; a favorite added under an id that no
/// other carries is the one found under that id.
pub proof fn law_favorites_round_trip(s: Seq<FavoriteView>, f: FavoriteView, id: Seq<char>)
    ensures
        first_with_id(without_id(s, id), id) is None,
        forall|i: int| 0 <= i < s.len() && (#[trigger] s[i]).id != id ==> without_id(s, id).contains(s[i]),
        (forall|i: int| 0 <= i < s.len() ==> (#[trigger] s[i]).id != f.id)
            ==> first_with_id(s.push(f), f.id) == Some(s.len() as int),
{
    lemma_without_id(s, id);
    let t = s.push(f);
    if forall|i: int| 0 <= i < s.len() ==> (#[trigger] s[i]).id != f.id {
        assert(t[s.len() as int].id == f.id);
        let k = choose|k: int| 0 <= k < t.len() && t[k].id == f.id && forall|j: int| 0 <= j < k ==> t[j].id != f.id;
        if k < s.len() {
            assert(t[k] == s[k]);
        }
    }
}

/// Options of a content search as the search bar holds them.
#[derive(Debug)]
pub struct SearchOptions {
    pub use_regex: bool,
    pub use_glob: bool,
    pub case_sensitive: bool,
    pub size_filter: String,
}

impl Default for SearchOptions {
    fn default() -> (r: SearchOptions)
        ensures
            !r.use_regex,
            !r.use_glob,
            !r.case_sensitive,
            r.size_filter@.len() == 0,
    {
        SearchOptions { use_regex: false, use_glob: false, case_sensitive: false, size_filter: String::new() }
    }
}

/// Selection and panels of the result view.
#[derive(Debug)]
pub struct UiState {
    pub selected_index: Option<usize>,
    pub preview_path: Option<String>,
    pub show_welcome: bool,
    pub show_settings: bool,
}

impl Default for UiState {
    fn default() -> (r: UiState)
        ensures
            r.selected_index is None,
            r.preview_path is None,
            !r.show_welcome,
            !r.show_settings,
    {
        UiState { selected_index: None, preview_path: None, show_welcome: false, show_settings: false }
    }
}

/// A monotonic clock reading, carried opaquely.
#[verifier::external_type_specification]
#[verifier::external_body]
pub struct ExInstant(std::time::Instant);

/// What runs in the background, and how long the last search took (milliseconds).
#[derive(Debug)]
pub struct BackgroundTasks {
    pub is_indexing: bool,
    pub is_searching: bool,
    pub search_start_time: Option<std::time::Instant>,
    pub last_search_duration: Option<u64>,
}

impl Default for BackgroundTasks {
    fn default() -> (r: BackgroundTasks)
        ensures
            !r.is_indexing,
            !r.is_searching,
            r.search_start_time is None,
            r.last_search_duration is None,
    {
        BackgroundTasks { is_indexing: false, is_searching: false, search_start_time: None, last_search_duration: None }
    }
}

/// Kinds of files, for the icon shown beside a result.
#[derive(Clone, Copy, Debug, PartialEq, Eq, Structural)]
pub enum FileCategory {
    Code,
    Document,
    Video,
    Audio,
    Image,
    Archive,
    Executable,
    Config,
    Other,
}

/// Extensions of source code (lowercase).
pub open spec fn code_extension(e: Seq<char>) -> bool {
    ||| e == "rs"@ ||| e == "py"@ ||| e == "js"@ ||| e == "ts"@ ||| e == "jsx"@
    ||| e == "tsx"@ ||| e == "go"@ ||| e == "java"@ ||| e == "c"@ ||| e == "cpp"@
    ||| e == "h"@ ||| e == "hpp"@ ||| e == "cs"@ ||| e == "rb"@ ||| e == "php"@
    ||| e == "swift"@ ||| e == "kt"@ ||| e == "scala"@ ||| e == "vue"@ ||| e == "svelte"@
}

/// Extensions of documents (lowercase).
pub open spec fn document_extension(e: Seq<char>) -> bool {
    ||| e == "pdf"@ ||| e == "doc"@ ||| e == "docx"@ ||| e == "txt"@ ||| e == "md"@
    ||| e == "rtf"@ ||| e == "odt"@ ||| e == "xls"@ ||| e == "xlsx"@ ||| e == "ppt"@
    ||| e == "pptx"@
}

/// Extensions of images (lowercase).
pub open spec fn image_extension(e: Seq<char>) -> bool {
    ||| e == "jpg"@ ||| e == "jpeg"@ ||| e == "png"@ ||| e == "gif"@ ||| e == "bmp"@
    ||| e == "svg"@ ||| e == "webp"@ ||| e == "ico"@ ||| e == "tiff"@ ||| e == "tif"@
}

/// Extensions of archives (lowercase).
pub open spec fn archive_extension(e: Seq<char>) -> bool {
    ||| e == "zip"@ ||| e == "rar"@ ||| e == "7z"@ ||| e == "tar"@ ||| e == "gz"@
    ||| e == "bz2"@ ||| e == "xz"@
}

/// Extensions of executables and scripts (lowercase).
pub open spec fn executable_extension(e: Seq<char>) -> bool {
    ||| e == "exe"@ ||| e == "msi"@ ||| e == "dll"@ ||| e == "sys"@ ||| e == "bat"@
    ||| e == "cmd"@ ||| e == "ps1"@ ||| e == "sh"@
}

/// Extensions of configuration files (lowercase).
pub open spec fn config_extension(e: Seq<char>) -> bool {
    ||| e == "json"@ ||| e == "xml"@ ||| e == "yaml"@ ||| e == "yml"@ ||| e == "toml"@
    ||| e == "ini"@ ||| e == "cfg"@ ||| e == "conf"@
}

/// The category of a lowercase extension; the lists are tried in this order.
pub open spec fn category_of(e: Seq<char>) -> FileCategory {
    if code_extension(e) {
        FileCategory::Code
    } else if document_extension(e) {
        FileCategory::Document
    } else if video_extension(e) {
        FileCategory::Video
    } else if audio_extension(e) {
        FileCategory::Audio
    } else if image_extension(e) {
        FileCategory::Image
    } else if archive_extension(e) {
        FileCategory::Archive
    } else if executable_extension(e) {
        FileCategory::Executable
    } else if config_extension(e) {
        FileCategory::Config
    } else {
        FileCategory::Other
    }
}

/// The category lists agree with the media checks: a lowercase extension falls in the
/// Video category exactly when the video check takes it, and in the Audio category
/// exactly when the audio check takes it. So for a path, the category of its lowercased
/// extension is Video (Audio) exactly when `is_video_file` (`is_audio_file`) holds.
pub proof fn law_category_agrees_with_media_checks(e: Seq<char>)
    ensures
        (category_of(e) == FileCategory::Video) == video_extension(e),
        (category_of(e) == FileCategory::Audio) == audio_extension(e),
{
    reveal_strlit("rs");
    reveal_strlit("py");
    reveal_strlit("js");
    reveal_strlit("ts");
    reveal_strlit("jsx");
    reveal_strlit("tsx");
    reveal_strlit("go");
    reveal_strlit("java");
    reveal_strlit("c");
    reveal_strlit("cpp");
    reveal_strlit("h");
    reveal_strlit("hpp");
    reveal_strlit("cs");
    reveal_strlit("rb");
    reveal_strlit("php");
    reveal_strlit("swift");
    reveal_strlit("kt");
    reveal_strlit("scala");
    reveal_strlit("vue");
    reveal_strlit("svelte");
    reveal_strlit("pdf");
    reveal_strlit("doc");
    reveal_strlit("docx");
    reveal_strlit("txt");
    reveal_strlit("md");
    reveal_strlit("rtf");
    reveal_strlit("odt");
    reveal_strlit("xls");
    reveal_strlit("xlsx");
    reveal_strlit("ppt");
    reveal_strlit("pptx");
    reveal_strlit("mp4");
    reveal_strlit("avi");
    reveal_strlit("mkv");
    reveal_strlit("mov");
    reveal_strlit("wmv");
    reveal_strlit("flv");
    reveal_strlit("webm");
    reveal_strlit("m4v");
    reveal_strlit("mpg");
    reveal_strlit("mpeg");
    reveal_strlit("3gp");
    reveal_strlit("mp3");
    reveal_strlit("wav");
    reveal_strlit("flac");
    reveal_strlit("aac");
    reveal_strlit("ogg");
    reveal_strlit("wma");
    reveal_strlit("m4a");
    if video_extension(e) {
        assert(e.len() >= 3 && e[0] != 'r' && e[0] != 'p' && e[0] != 'j' && e[0] != 't' && e[0] != 'g'
            && e[0] != 'c' && e[0] != 'h' && e[0] != 's' && e[0] != 'k' && e[0] != 'v' && e[0] != 'd'
            && e[0] != 'o' && e[0] != 'x');
        assert(!code_extension(e));
        assert(!document_extension(e));
    }
    if audio_extension(e) {
        assert(e.len() >= 3 && e[0] != 'r' && e[0] != 'p' && e[0] != 'j' && e[0] != 't' && e[0] != 'g'
            && e[0] != 'c' && e[0] != 'h' && e[0] != 's' && e[0] != 'k' && e[0] != 'v' && e[0] != 'd'
            && e[0] != 'x');
        assert(e[0] == 'o' ==> e[1] == 'g');
        assert(e[0] == 'm' ==> e.len() == 3 && (e[2] == '3' || e[2] == 'a'));
        assert(e[0] == 'w' ==> e.len() == 3 && (e[1] == 'a' || e[2] == 'a'));
        assert(e[0] == 'a' ==> e[1] == 'a');
        assert(e[0] == 'f' ==> e.len() == 4);
        assert(!code_extension(e));
        assert(!document_extension(e));
        assert(!video_extension(e));
    }
}

/// The category of an ASCII extension does not depend on its case: the extension and
/// its ASCII uppercase lower to the same text, so they fall in the same category.
pub proof fn law_category_ignores_ascii_case(ext: Seq<char>)
    requires
        is_ascii_text(ext),
    ensures
        is_ascii_text(ascii_upper(ext)),
        category_of(ascii_lower(ascii_upper(ext))) == category_of(ascii_lower(ext)),
{
    lemma_ascii_case_round_trip(ext);
}

/// For a file `f.<ext>`, with `ext` a non-empty ASCII extension holding no `.`, `/` or
/// `\\`: the path's extension is `ext`; `ext` and its ASCII uppercase fall in the same
/// category; and that category is Video (Audio) exactly when the video (audio) check
/// takes the lowered extension. With the contracts of `FileCategory::from_extension`,
/// `is_video_file` and `is_audio_file`, the category of `ext` in any case is Video
/// (Audio) exactly when `is_video_file` (`is_audio_file`) holds of `f.<ext>`.
pub proof fn law_file_category_matches_media_checks(ext: Seq<char>)
    requires
        ext.len() > 0,
        is_ascii_text(ext),
        forall|i: int| 0 <= i < ext.len() ==> (#[trigger] ext[i]) != '.' && ext[i] != '/' && ext[i] != '\\',
    ensures
        simple_extension(seq!['f', '.'] + ext) == Some(ext),
        is_ascii_text(ascii_upper(ext)),
        category_of(ascii_lower(ascii_upper(ext))) == category_of(ascii_lower(ext)),
        (category_of(ascii_lower(ext)) == FileCategory::Video) == video_extension(ascii_lower(ext)),
        (category_of(ascii_lower(ext)) == FileCategory::Audio) == audio_extension(ascii_lower(ext)),
{
    let p = seq!['f', '.'] + ext;
    assert(p[0] == 'f');
    assert(p[1] == '.');
    assert forall|i: int| 0 <= i < p.len() && i != 1 implies (#[trigger] p[i]) != '.' && p[i] != '/' && p[i] != '\\' by {
        if i >= 2 {
            assert(p[i] == ext[i - 2]);
        }
    }
    let k = choose|k: int| #![trigger p[k]] 0 < k < p.len() - 1 && p[k] == '.' && forall|i: int|
        0 <= i < p.len() && i != k ==> (#[trigger] p[i]) != '.' && p[i] != '/' && p[i] != '\\';
    if k != 1 {
        assert(p[1] != '.');
    }
    assert(p.skip(2) =~= ext);
    law_category_ignores_ascii_case(ext);
    law_category_agrees_with_media_checks(ascii_lower(ext));
}

/// The icon shown for a category.
pub open spec fn category_icon(c: FileCategory) -> Seq<char> {
    match c {
        FileCategory::Code => "\u{1F4BB}"@,
        FileCategory::Document => "\u{1F4C4}"@,
        FileCategory::Video => "\u{1F3AC}"@,
        FileCategory::Audio => "\u{1F3B5}"@,
        FileCategory::Image => "\u{1F5BC}"@,
        FileCategory::Archive => "\u{1F4E6}"@,
        FileCategory::Executable => "\u{2699}"@,
        FileCategory::Config => "\u{1F4C1}"@,
        FileCategory::Other => "\u{1F4C4}"@,
    }
}

fn is_code_extension(e: &str) -> (r: bool)
    ensures
        r == code_extension(e@),
{
    str_eq(e, "rs") || str_eq(e, "py") || str_eq(e, "js") || str_eq(e, "ts") || str_eq(e, "jsx")
        || str_eq(e, "tsx") || str_eq(e, "go") || str_eq(e, "java") || str_eq(e, "c")
        || str_eq(e, "cpp") || str_eq(e, "h") || str_eq(e, "hpp") || str_eq(e, "cs")
        || str_eq(e, "rb") || str_eq(e, "php") || str_eq(e, "swift") || str_eq(e, "kt")
        || str_eq(e, "scala") || str_eq(e, "vue") || str_eq(e, "svelte")
}

fn is_document_extension(e: &str) -> (r: bool)
    ensures
        r == document_extension(e@),
{
    str_eq(e, "pdf") || str_eq(e, "doc") || str_eq(e, "docx") || str_eq(e, "txt") || str_eq(e, "md")
        || str_eq(e, "rtf") || str_eq(e, "odt") || str_eq(e, "xls") || str_eq(e, "xlsx")
        || str_eq(e, "ppt") || str_eq(e, "pptx")
}

fn is_image_extension(e: &str) -> (r: bool)
    ensures
        r == image_extension(e@),
{
    str_eq(e, "jpg") || str_eq(e, "jpeg") || str_eq(e, "png") || str_eq(e, "gif") || str_eq(e, "bmp")
        || str_eq(e, "svg") || str_eq(e, "webp") || str_eq(e, "ico") || str_eq(e, "tiff")
        || str_eq(e, "tif")
}

fn is_archive_extension(e: &str) -> (r: bool)
    ensures
        r == archive_extension(e@),
{
    str_eq(e, "zip") || str_eq(e, "rar") || str_eq(e, "7z") || str_eq(e, "tar") || str_eq(e, "gz")
        || str_eq(e, "bz2") || str_eq(e, "xz")
}

fn is_executable_extension(e: &str) -> (r: bool)
    ensures
        r == executable_extension(e@),
{
    str_eq(e, "exe") || str_eq(e, "msi") || str_eq(e, "dll") || str_eq(e, "sys") || str_eq(e, "bat")
        || str_eq(e, "cmd") || str_eq(e, "ps1") || str_eq(e, "sh")
}

fn is_config_extension(e: &str) -> (r: bool)
    ensures
        r == config_extension(e@),
{
    str_eq(e, "json") || str_eq(e, "xml") || str_eq(e, "yaml") || str_eq(e, "yml") || str_eq(e, "toml")
        || str_eq(e, "ini") || str_eq(e, "cfg") || str_eq(e, "conf")
}

impl FileCategory {
    /// The category of an extension, in any case.
    pub fn from_extension(ext: &str) -> (r: FileCategory)
        ensures
            r == category_of(lowercase(ext@)),
            is_ascii_text(ext@) ==> r == category_of(ascii_lower(ext@)),
    {
        let low = to_lowercase(ext);
        let e = low.as_str();
        if is_code_extension(e) {
            FileCategory::Code
        } else if is_document_extension(e) {
            FileCategory::Document
        } else if is_video_extension(e) {
            FileCategory::Video
        } else if is_audio_extension(e) {
            FileCategory::Audio
        } else if is_image_extension(e) {
            FileCategory::Image
        } else if is_archive_extension(e) {
            FileCategory::Archive
        } else if is_executable_extension(e) {
            FileCategory::Executable
        } else if is_config_extension(e) {
            FileCategory::Config
        } else {
            FileCategory::Other
        }
    }

    /// The icon shown for the category.
    pub fn icon(&self) -> (r: &'static str)
        ensures
            r@ == category_icon(*self),
    {
        match self {
            FileCategory::Code => "\u{1F4BB}",
            FileCategory::Document => "\u{1F4C4}",
            FileCategory::Video => "\u{1F3AC}",
            FileCategory::Audio => "\u{1F3B5}",
            FileCategory::Image => "\u{1F5BC}",
            FileCategory::Archive => "\u{1F4E6}",
            FileCategory::Executable => "\u{2699}",
            FileCategory::Config => "\u{1F4C1}",
            FileCategory::Other => "\u{1F4C4}",
        }
    }
}

/// Which page of the results is shown, how many results a page holds, and how many
/// results there are. Pages are numbered from 1.
#[derive(Clone, Copy, Debug)]
pub struct PaginationState {
    pub current_page: usize,
    pub items_per_page: usize,
    pub total_items: usize,
}

impl Default for PaginationState {
    fn default() -> (r: PaginationState)
        ensures
            r.current_page == 0,
            r.items_per_page == 0,
            r.total_items == 0,
    {
        PaginationState { current_page: 0, items_per_page: 0, total_items: 0 }
    }
}

/// `a / b` rounded up (`b > 0`).
pub open spec fn ceil_div(a: nat, b: nat) -> nat {
    if a % b == 0 {
        a / b
    } else {
        a / b + 1
    }
}

/// `a - b`, or 0 when `b` is larger.
pub open spec fn saturating_sub(a: nat, b: nat) -> nat {
    if a >= b {
        (a - b) as nat
    } else {
        0
    }
}

/// The pages counted over the results, and the one shown.
impl PaginationState {
    /// The page count is defined: there are no results, or a page holds some.
    pub open spec fn pages_defined(self) -> bool {
        self.total_items == 0 || self.items_per_page > 0
    }

    /// The number of pages: 1 when there are no results, else the results divided by the
    /// page size, rounded up.
    pub open spec fn page_count(self) -> nat {
        if self.total_items == 0 {
            1
        } else {
            ceil_div(self.total_items as nat, self.items_per_page as nat)
        }
    }

    /// A usable state: pages hold results and the shown page exists.
    pub open spec fn is_valid(self) -> bool {
        &&& self.items_per_page > 0
        &&& 1 <= self.current_page
        &&& self.current_page <= self.page_count()
    }

    /// The index of the first result of the shown page.
    pub open spec fn first_item(self) -> nat {
        saturating_sub(self.current_page as nat, 1) * (self.items_per_page as nat)
    }

    /// The state after `total` results arrive: the shown page moves back to the last
    /// page when it no longer exists.
    pub open spec fn with_total(self, total: usize) -> PaginationState {
        let s = PaginationState { total_items: total, ..self };
        if s.current_page > s.page_count() {
            PaginationState { current_page: s.page_count() as usize, ..s }
        } else {
            s
        }
    }

    /// The state after a step forward: one page on, unless the last page is shown.
    pub open spec fn stepped_forward(self) -> PaginationState {
        if self.current_page < self.page_count() {
            PaginationState { current_page: (self.current_page + 1) as usize, ..self }
        } else {
            self
        }
    }

    /// The state after a step back: one page back, unless the first page is shown.
    pub open spec fn stepped_back(self) -> PaginationState {
        if self.current_page > 1 {
            PaginationState { current_page: (self.current_page - 1) as usize, ..self }
        } else {
            self
        }
    }

    /// The state after jumping to `page`, clamped to the pages that exist.
    pub open spec fn at_page(self, page: usize) -> PaginationState {
        let target = if page < 1 {
            1
        } else if page > self.page_count() {
            self.page_count() as usize
        } else {
            page
        };
        PaginationState { current_page: target, ..self }
    }
}

/// There is at least one page, and no more pages than results (or 1).
pub proof fn lemma_page_count_bounds(s: PaginationState)
    requires
        s.pages_defined(),
    ensures
        1 <= s.page_count(),
        s.page_count() <= if s.total_items == 0 { 1 } else { s.total_items as nat },
{
    if s.total_items > 0 {
        let t = s.total_items as int;
        let p = s.items_per_page as int;
        assert(t % p == 0 ==> 1 <= t / p <= t) by (nonlinear_arith)
            requires
                t > 0,
                p > 0,
        ;
        assert(t % p != 0 ==> t / p < t) by (nonlinear_arith)
            requires
                t > 0,
                p > 0,
        ;
    }
}

impl PaginationState {
    /// The first page, with no results yet.
    pub fn new(items_per_page: usize) -> (r: Self)
        ensures
            r.current_page == 1,
            r.items_per_page == items_per_page,
            r.total_items == 0,
    {
        PaginationState { current_page: 1, items_per_page, total_items: 0 }
    }

    /// The number of pages (at least 1).
    pub fn total_pages(&self) -> (r: usize)
        requires
            self.pages_defined(),
        ensures
            r == self.page_count(),
            r >= 1,
    {
        proof {
            lemma_page_count_bounds(*self);
        }
        if self.total_items == 0 {
            return 1;
        }
        let q = self.total_items / self.items_per_page;
        if self.total_items % self.items_per_page == 0 {
            q
        } else {
            assert(q < self.total_items) by (nonlinear_arith)
                requires
                    self.items_per_page > 0,
                    self.total_items % self.items_per_page != 0,
                    q == self.total_items / self.items_per_page,
            ;
            q + 1
        }
    }

    /// The index of the first result of the shown page.
    pub fn offset(&self) -> (r: usize)
        requires
            self.first_item() <= usize::MAX,
        ensures
            r == self.first_item(),
    {
        let before: usize = if self.current_page >= 1 { self.current_page - 1 } else { 0 };
        before * self.items_per_page
    }

    /// The number of results a page holds.
    pub fn limit(&self) -> (r: usize)
        ensures
            r == self.items_per_page,
    {
        self.items_per_page
    }

    /// Records a new number of results; the shown page moves back to the last page
    /// when it no longer exists.
    pub fn update_total(&mut self, total: usize)
        requires
            total == 0 || old(self).items_per_page > 0,
        ensures
            *final(self) == old(self).with_total(total),
    {
        self.total_items = total;
        let pages = self.total_pages();
        if self.current_page > pages {
            self.current_page = if pages >= 1 { pages } else { 1 };
        }
    }

    /// Whether the results need more than one page.
    pub fn needs_pagination(&self) -> (r: bool)
        ensures
            r == (self.total_items > self.items_per_page),
    {
        self.total_items > self.items_per_page
    }

    /// Shows the next page, unless the last one is shown.
    pub fn next_page(&mut self)
        requires
            old(self).pages_defined(),
        ensures
            *final(self) == old(self).stepped_forward(),
    {
        if self.current_page < self.total_pages() {
            self.current_page = self.current_page + 1;
        }
    }

    /// Shows the previous page, unless the first one is shown.
    pub fn prev_page(&mut self)
        ensures
            *final(self) == old(self).stepped_back(),
    {
        if self.current_page > 1 {
            self.current_page = self.current_page - 1;
        }
    }

    /// Shows the first page.
    pub fn first_page(&mut self)
        ensures
            *final(self) == (PaginationState { current_page: 1, ..*old(self) }),
    {
        self.current_page = 1;
    }

    /// Shows the last page.
    pub fn last_page(&mut self)
        requires
            old(self).pages_defined(),
        ensures
            *final(self) == (PaginationState { current_page: old(self).page_count() as usize, ..*old(self) }),
    {
        let pages = self.total_pages();
        self.current_page = if pages >= 1 { pages } else { 1 };
    }

    /// Shows page `page`, clamped to the pages that exist.
    pub fn go_to_page(&mut self, page: usize)
        requires
            old(self).pages_defined(),
        ensures
            *final(self) == old(self).at_page(page),
    {
        let pages = self.total_pages();
        let upper = if pages >= 1 { pages } else { 1 };
        let target = if page < 1 {
            1
        } else if page > upper {
            upper
        } else {
            page
        };
        self.current_page = target;
    }
}

/// The pages `a..=b` in order (none when `b < a`).
pub open spec fn page_range(a: int, b: int) -> Seq<usize> {
    Seq::new(if b >= a { (b - a + 1) as nat } else { 0 }, |i: int| (a + i) as usize)
}

/// The window of page numbers offered around the shown page.
impl PaginationState {
    /// The width of the window: `visible` pages, at least one.
    pub open spec fn window_width(visible: nat) -> nat {
        if visible == 0 {
            1
        } else {
            visible
        }
    }

    /// The shown page, held to `1..=page_count()`.
    pub open spec fn shown_page(self) -> nat {
        if self.current_page < 1 {
            1
        } else if self.current_page > self.page_count() {
            self.page_count()
        } else {
            self.current_page as nat
        }
    }

    /// Where a window centred on the shown page would start: half a window before it,
    /// or at page 1.
    pub open spec fn window_first(self, visible: nat) -> nat {
        let half = Self::window_width(visible) / 2;
        if self.shown_page() > half {
            (self.shown_page() - half) as nat
        } else {
            1
        }
    }

    /// Where the window ends: a full window on from its start, or at the last page.
    pub open spec fn window_last(self, visible: nat) -> nat {
        let w = Self::window_width(visible);
        let first = self.window_first(visible);
        if self.page_count() - first < w {
            self.page_count()
        } else {
            (first + w - 1) as nat
        }
    }

    /// Where the window starts once moved back from the last page to hold a full window.
    pub open spec fn window_start(self, visible: nat) -> nat {
        let w = Self::window_width(visible);
        let first = self.window_first(visible);
        let last = self.window_last(visible);
        if last - first + 1 < w {
            (last + 1 - w) as nat
        } else {
            first
        }
    }

    /// The page numbers offered: all pages when they fit in the window; otherwise page 1
    /// (when the window starts after it), the window of pages around the shown page,
    /// and the last page (when the window ends before it).
    pub open spec fn visible_pages(self, visible: nat) -> Seq<usize> {
        let total = self.page_count();
        if total <= Self::window_width(visible) {
            page_range(1, total as int)
        } else {
            let start = self.window_start(visible);
            let last = self.window_last(visible);
            (if start > 1 { seq![1usize] } else { Seq::empty() }) + page_range(start as int, last as int) + (
            if last < total {
                seq![total as usize]
            } else {
                Seq::empty()
            })
        }
    }
}

/// Appends the pages `a..=b` to `v`.
fn push_pages(v: &mut Vec<usize>, a: usize, b: usize)
    requires
        a <= b,
    ensures
        final(v)@ == old(v)@ + page_range(a as int, b as int),
{
    let ghost start = v@;
    let mut p = a;
    loop
        invariant_except_break
            a <= p <= b,
            v@ == start + page_range(a as int, p - 1),
        ensures
            v@ == start + page_range(a as int, b as int),
        decreases b - p,
    {
        v.push(p);
        assert(v@ =~= start + page_range(a as int, p as int));
        if p == b {
            break;
        }
        p = p + 1;
    }
}

impl PaginationState {
    /// The page numbers to offer around the shown page, 1-based (see `visible_pages`):
    /// a window of at most `visible_count` pages (at least one) centred on the shown
    /// page, with the first and the last page always offered.
    pub fn get_visible_pages(&self, visible_count: usize) -> (r: Vec<usize>)
        requires
            self.pages_defined(),
        ensures
            r@ == self.visible_pages(visible_count as nat),
    {
        let total = self.total_pages();
        let w = if visible_count == 0 { 1 } else { visible_count };
        let c = if self.current_page < 1 {
            1
        } else if self.current_page > total {
            total
        } else {
            self.current_page
        };
        assert(c == self.shown_page());
        let mut pages: Vec<usize> = Vec::new();
        if total <= w {
            push_pages(&mut pages, 1, total);
            assert(pages@ =~= page_range(1, total as int));
            return pages;
        }
        let half = w / 2;
        let first = if c > half { c - half } else { 1 };
        let end = if total - first < w { total } else { first + (w - 1) };
        let start = if end - first + 1 < w { end - (w - 1) } else { first };
        assert(first == self.window_first(visible_count as nat));
        assert(end == self.window_last(visible_count as nat));
        assert(start == self.window_start(visible_count as nat));
        if start > 1 {
            pages.push(1);
        }
        let ghost head = pages@;
        push_pages(&mut pages, start, end);
        if end < total {
            pages.push(total);
            assert(pages@ =~= head + page_range(start as int, end as int) + seq![total]);
        } else {
            assert(pages@ =~= head + page_range(start as int, end as int) + Seq::<usize>::empty());
        }
        pages
    }
}

/// Every operation keeps a usable state usable: recording a new total, stepping either
/// way, and jumping to the first, the last or any page.
pub proof fn law_pagination_stays_valid(s: PaginationState, total: usize, page: usize)
    requires
        s.is_valid(),
    ensures
        s.with_total(total).is_valid(),
        s.stepped_forward().is_valid(),
        s.stepped_back().is_valid(),
        s.at_page(page).is_valid(),
        (PaginationState { current_page: 1, ..s }).is_valid(),
        (PaginationState { current_page: s.page_count() as usize, ..s }).is_valid(),
{
    lemma_page_count_bounds(s);
    lemma_page_count_bounds(PaginationState { total_items: total, ..s });
    lemma_page_count_bounds(PaginationState { current_page: 1, ..s });
}

/// Jumping to any page lands on a page that exists.
pub proof fn law_go_to_page_in_range(s: PaginationState, page: usize)
    requires
        s.pages_defined(),
    ensures
        1 <= s.at_page(page).current_page <= s.page_count(),
        s.at_page(page).total_items == s.total_items,
        s.at_page(page).items_per_page == s.items_per_page,
{
    lemma_page_count_bounds(s);
}

/// A step forward then back, or back then forward, returns to the page shown, unless
/// the step met the last or the first page.
pub proof fn law_step_round_trip(s: PaginationState)
    requires
        s.is_valid(),
    ensures
        s.current_page < s.page_count() ==> s.stepped_forward().stepped_back() == s,
        s.current_page > 1 ==> s.stepped_back().stepped_forward() == s,
{
    lemma_page_count_bounds(s);
}

/// The shown page of a usable state starts inside the results, so its offset is a
/// result's index.
pub proof fn law_offset_inside_results(s: PaginationState)
    requires
        s.is_valid(),
        s.total_items > 0,
    ensures
        s.first_item() < s.total_items,
{
    let t = s.total_items as int;
    let p = s.items_per_page as int;
    let c = s.current_page as int;
    vstd::arithmetic::div_mod::lemma_fundamental_div_mod(t, p);
    assert((c - 1) * p < t) by (nonlinear_arith)
        requires
            t > 0,
            p > 0,
            1 <= c,
            t % p == 0 ==> c <= t / p,
            t % p != 0 ==> c <= t / p + 1,
            t == p * (t / p) + t % p,
            0 <= t % p < p,
    ;
}

/// The pages offered are 1-based and in increasing order, none past the last page; they
/// hold the first page, the shown page and the last page, and besides the first and
/// the last page at most a window of `visible` pages (one when `visible` is 0).
pub proof fn law_visible_pages_window(s: PaginationState, visible: nat)
    requires
        s.pages_defined(),
    ensures
        s.visible_pages(visible).contains(1usize),
        s.visible_pages(visible).contains(s.shown_page() as usize),
        s.visible_pages(visible).contains(s.page_count() as usize),
        s.visible_pages(visible).len() <= PaginationState::window_width(visible) + 2,
        forall|i: int, j: int| 0 <= i < j < s.visible_pages(visible).len() ==>
            s.visible_pages(visible)[i] < s.visible_pages(visible)[j],
        forall|i: int| 0 <= i < s.visible_pages(visible).len() ==>
            1 <= #[trigger] s.visible_pages(visible)[i] <= s.page_count(),
{
    lemma_page_count_bounds(s);
    let total = s.page_count() as int;
    let c = s.shown_page() as int;
    let v = s.visible_pages(visible);
    if total <= PaginationState::window_width(visible) {
        assert(v[0] == 1);
        assert(v[c - 1] == c);
        assert(v[total - 1] == total);
    } else {
        let start = s.window_start(visible) as int;
        let last = s.window_last(visible) as int;
        assert(1 <= start <= c <= last <= total);
        let head: Seq<usize> = if start > 1 { seq![1usize] } else { Seq::empty() };
        let tail: Seq<usize> = if last < total { seq![total as usize] } else { Seq::empty() };
        let mid = page_range(start, last);
        assert(v == head + mid + tail);
        assert(v[head.len() + (c - start)] == c);
        assert(v[0] == 1);
        assert(v[v.len() - 1] == total);
        assert forall|i: int, j: int| 0 <= i < j < v.len() implies v[i] < v[j] by {
            if i < head.len() {
                assert(v[i] == 1);
            } else if i < head.len() + mid.len() {
                assert(v[i] == start + (i - head.len()));
            }
            if j < head.len() + mid.len() {
                assert(v[j] == start + (j - head.len()));
            } else {
                assert(v[j] == total);
            }
        }
        assert forall|i: int| 0 <= i < v.len() implies 1 <= #[trigger] v[i] <= total by {
            if head.len() <= i < head.len() + mid.len() {
                assert(v[i] == start + (i - head.len()));
            }
        }
    }
}

/// Number of trailing characters of `s` that are not ASCII digits.
pub open spec fn trailing_non_digits(s: Seq<char>) -> nat
    decreases s.len(),
{
    if s.len() > 0 && !is_digit(s.last()) {
        1 + trailing_non_digits(s.drop_last())
    } else {
        0
    }
}

/// The multiplier of a size's last character: `k`, `m`, `g`, or 1 for anything else.
pub open spec fn suffix_multiplier(s: Seq<char>) -> nat {
    if s.len() > 0 && s.last() == 'k' {
        1024
    } else if s.len() > 0 && s.last() == 'm' {
        1048576
    } else if s.len() > 0 && s.last() == 'g' {
        1073741824
    } else {
        1
    }
}

/// A size text read as a number and a multiplier: trimmed and lowercased, its trailing
/// non-digits dropped and the rest read as a `u64`; the multiplier comes from its last
/// character.
pub open spec fn size_part_parse(s: Seq<char>) -> Option<(u64, nat)> {
    let l = lowercase(trim_spec(s));
    match parse_u64_spec(l.take(l.len() - trailing_non_digits(l))) {
        Some(n) => Some((n, suffix_multiplier(l))),
        None => None,
    }
}

/// The size in bytes a size text denotes does not overflow 64 bits (or it has none).
pub open spec fn size_part_fits(s: Seq<char>) -> bool {
    match size_part_parse(s) {
        Some((n, m)) => n * m <= u64::MAX,
        None => true,
    }
}

/// The size in bytes a size text denotes.
pub open spec fn size_part_value(s: Seq<char>) -> Option<u64> {
    match size_part_parse(s) {
        Some((n, m)) => Some((n * m) as u64),
        None => None,
    }
}

/// The bounds a size filter denotes: `A-B` gives `(A, B)` when both read as sizes, a
/// single size `S` gives `(0, S)`; empty text, more than one `-`, or a part that does
/// not read give none.
pub open spec fn size_bounds_of(filter: Seq<char>) -> Option<(u64, u64)> {
    let t = trim_spec(filter);
    if t.len() == 0 {
        None
    } else if first_dash(t) < t.len() {
        let d = first_dash(t);
        let rest = t.skip(d + 1);
        if first_dash(rest) < rest.len() {
            None
        } else {
            match (size_part_value(t.take(d)), size_part_value(rest)) {
                (Some(a), Some(b)) => Some((a, b)),
                _ => None,
            }
        }
    } else {
        match size_part_value(t) {
            Some(n) => Some((0, n)),
            None => None,
        }
    }
}

/// Every size that `parse_size_filter` computes for a filter fits in 64 bits.
pub open spec fn size_bounds_fit(filter: Seq<char>) -> bool {
    let t = trim_spec(filter);
    if t.len() == 0 {
        true
    } else if first_dash(t) < t.len() {
        let d = first_dash(t);
        let rest = t.skip(d + 1);
        first_dash(rest) < rest.len() || (size_part_fits(t.take(d)) && size_part_fits(rest))
    } else {
        size_part_fits(t)
    }
}

/// A size text split into its number and its multiplier (see `size_part_parse`).
fn size_part_pieces(s: &str) -> (r: Option<(u64, u64)>)
    ensures
        match size_part_parse(s@) {
            Some((n, m)) => r == Some((n, m as u64)),
            None => r is None,
        },
        r matches Some((n, m)) ==> m > 0,
{
    let low = to_lowercase(str_trim(s));
    let v = chars_of(low.as_str());
    let ghost l = v@;
    let len = v.len();
    let multiplier: u64 = if len > 0 && v[len - 1] == 'k' {
        1024
    } else if len > 0 && v[len - 1] == 'm' {
        1048576
    } else if len > 0 && v[len - 1] == 'g' {
        1073741824
    } else {
        1
    };
    let mut end = len;
    assert(l.take(len as int) =~= l);
    while end > 0 && !('0' <= v[end - 1] && v[end - 1] <= '9')
        invariant
            end <= len == l.len(),
            l == v@,
            trailing_non_digits(l) == trailing_non_digits(l.take(end as int)) + (len - end),
        decreases end,
    {
        assert(l.take(end as int).drop_last() =~= l.take(end - 1));
        end = end - 1;
    }
    proof {
        if end > 0 {
            assert(is_digit(l.take(end as int).last()));
        }
        assert(trailing_non_digits(l.take(end as int)) == 0);
        assert(l.take(l.len() - trailing_non_digits(l)) =~= l.subrange(0, end as int));
    }
    match parse_u64_chars(&v, 0, end) {
        Some(n) => Some((n, multiplier)),
        None => None,
    }
}

/// The size in bytes a size text denotes (see `size_part_value`).
fn size_part(s: &str) -> (r: Option<u64>)
    requires
        size_part_fits(s@),
    ensures
        r == size_part_value(s@),
{
    match size_part_pieces(s) {
        Some((n, m)) => Some(n * m),
        None => None,
    }
}

/// Whether the size a size text denotes fits in 64 bits.
fn size_part_fits_check(s: &str) -> (r: bool)
    ensures
        r == size_part_fits(s@),
{
    match size_part_pieces(s) {
        Some((n, m)) => {
            let r = n <= u64::MAX / m;
            assert(r == (n * m <= u64::MAX)) by (nonlinear_arith)
                requires
                    m > 0,
                    r == (n <= u64::MAX / m),
            ;
            r
        },
        None => true,
    }
}

/// Where the `-` of a trimmed filter is, and whether there is a second one.
fn split_at_dash(v: &Vec<char>) -> (r: (usize, bool))
    ensures
        r.0 == first_dash(v@),
        r.0 < v@.len() ==> (r.1 <==> first_dash(v@.skip(r.0 + 1)) < v@.skip(r.0 + 1).len()),
{
    let d = find_char(v, 0, '-');
    proof {
        lemma_first_dash(v@, d as int);
    }
    if d < v.len() {
        let d2 = find_char(v, d + 1, '-');
        proof {
            let rest = v@.skip(d + 1);
            lemma_first_dash(rest, d2 - (d + 1));
        }
        (d, d2 < v.len())
    } else {
        (d, false)
    }
}

/// Reads the size filter of the search bar (see `size_bounds_of`).
pub fn parse_size_filter(filter: &str) -> (r: Option<(u64, u64)>)
    requires
        size_bounds_fit(filter@),
    ensures
        r == size_bounds_of(filter@),
{
    let t = str_trim(filter);
    if t.is_empty() {
        return None;
    }
    let v = chars_of(t);
    let (d, second) = split_at_dash(&v);
    if d < v.len() {
        if second {
            return None;
        }
        let first_part = string_from_range(&v, 0, d);
        let second_part = string_from_range(&v, d + 1, v.len());
        assert(first_part@ =~= t@.take(d as int));
        assert(second_part@ =~= t@.skip(d + 1));
        let min = size_part(first_part.as_str());
        let max = size_part(second_part.as_str());
        match (min, max) {
            (Some(a), Some(b)) => Some((a, b)),
            _ => None,
        }
    } else {
        match size_part(t) {
            Some(n) => Some((0, n)),
            None => None,
        }
    }
}

/// `parse_size_filter`, checked first: `None` when a size in the filter would overflow
/// 64 bits (where `parse_size_filter` has no answer), `Some` of its answer otherwise.
pub fn parse_size_filter_checked(filter: &str) -> (r: Option<Option<(u64, u64)>>)
    ensures
        r is None <==> !size_bounds_fit(filter@),
        r matches Some(b) ==> b == size_bounds_of(filter@),
{
    let t = str_trim(filter);
    let fits = if t.is_empty() {
        true
    } else {
        let v = chars_of(t);
        let (d, second) = split_at_dash(&v);
        if d < v.len() {
            if second {
                true
            } else {
                let first_part = string_from_range(&v, 0, d);
                let second_part = string_from_range(&v, d + 1, v.len());
                assert(first_part@ =~= t@.take(d as int));
                assert(second_part@ =~= t@.skip(d + 1));
                size_part_fits_check(first_part.as_str()) && size_part_fits_check(second_part.as_str())
            }
        } else {
            size_part_fits_check(t)
        }
    };
    if fits {
        Some(parse_size_filter(filter))
    } else {
        None
    }
}

} // verus!
