//! The `colony.json` contract.
//!
//! Every repository that wants to appear in the launcher ships a
//! `colony.json` at its root. The launcher reads it to decide what the program
//! is called, where it belongs, and which release asset to install on the
//! running platform. These types are that contract, and `validate` is
//! everything the launcher would either reject outright or silently ignore.

use vstd::prelude::*;
use vstd::utf8::*;

use crate::strmap::StrMap;
use crate::text::{
    contains_double_dot, debug_str, ends_with_seq, has_double_dot, is_ascii_upper, is_blank,
    is_blank_seq, is_hex_char, is_hex_digit, is_upper_char, lower_seq, spec_debug_str, str_eq,
    trim, trim_lowercase, utf8_len_from_is,
};

verus! {

/// Where a program is filed in the launcher's category list.
#[derive(Debug)]
pub struct Category {
    /// The form to prefer in new manifests.
    pub canonical: &'static str,
    /// Other spellings the launcher accepts.
    pub aliases: Vec<&'static str>,
}

/// The canonical category names, in list order.
pub open spec fn category_names() -> Seq<Seq<char>> {
    seq![
        "development"@,
        "graphics"@,
        "network"@,
        "office"@,
        "multimedia"@,
        "system"@,
        "utility"@,
        "security"@,
        "game"@,
        "other"@,
    ]
}

/// The aliases of the category at index `i`.
pub open spec fn category_aliases(i: int) -> Seq<Seq<char>> {
    if i == 6 {
        seq!["utilities"@]
    } else if i == 8 {
        seq!["games"@]
    } else {
        seq![]
    }
}

/// Category `i` is spelled `s`, canonically or by an alias.
pub open spec fn spells(i: int, s: Seq<char>) -> bool {
    category_names()[i] == s || category_aliases(i).contains(s)
}

/// The form the launcher matches a `category` string in: trimmed, then
/// ASCII-lowercased.
pub open spec fn normalized(s: Seq<char>) -> Seq<char> {
    lower_seq(trim(s))
}

/// Some category is spelled `value`, after normalizing it.
pub open spec fn category_resolves(value: Seq<char>) -> bool {
    exists|i: int| 0 <= i < 10 && spells(i, normalized(value))
}

/// Every accepted spelling, canonical first, in list order.
pub open spec fn all_spellings_spec() -> Seq<Seq<char>> {
    spellings_upto(10)
}

pub open spec fn spellings_upto(n: int) -> Seq<Seq<char>>
    decreases n,
{
    if n <= 0 {
        seq![]
    } else {
        spellings_upto(n - 1).push(category_names()[n - 1]) + category_aliases(n - 1)
    }
}

/// The platform keys the launcher resolves at runtime. `macos` is Apple
/// Silicon and `macos-x86` is Intel.
pub open spec fn platform_names() -> Seq<Seq<char>> {
    seq!["linux"@, "windows"@, "macos"@, "macos-x86"@]
}

/// The release-asset suffix per platform, in the order the launcher tests
/// them: `macos-x86` before `macos`.
pub open spec fn asset_suffixes() -> Seq<(Seq<char>, Seq<char>)> {
    seq![
        ("linux"@, "-linux"@),
        ("windows"@, "-windows.exe"@),
        ("macos-x86"@, "-macos-x86"@),
        ("macos"@, "-macos"@),
    ]
}

pub open spec fn is_known_platform(p: Seq<char>) -> bool {
    platform_names().contains(p)
}

/// The text of each string.
pub open spec fn str_views(s: Seq<&str>) -> Seq<Seq<char>> {
    s.map_values(|p: &str| p@)
}

/// The text of each pair of strings.
pub open spec fn pair_views(s: Seq<(&str, &str)>) -> Seq<(Seq<char>, Seq<char>)> {
    s.map_values(|e: (&str, &str)| (e.0@, e.1@))
}

/// Every category, in list order.
pub fn categories() -> (res: Vec<Category>)
    ensures
        res@.len() == 10,
        forall|i: int|
            0 <= i < 10 ==> #[trigger] res@[i].canonical@ == category_names()[i] && str_views(res@[i].aliases@) == category_aliases(i),
{
    let mut v: Vec<Category> = Vec::new();
    v.push(Category { canonical: "development", aliases: Vec::new() });
    v.push(Category { canonical: "graphics", aliases: Vec::new() });
    v.push(Category { canonical: "network", aliases: Vec::new() });
    v.push(Category { canonical: "office", aliases: Vec::new() });
    v.push(Category { canonical: "multimedia", aliases: Vec::new() });
    v.push(Category { canonical: "system", aliases: Vec::new() });
    let mut utility = Vec::new();
    utility.push("utilities");
    v.push(Category { canonical: "utility", aliases: utility });
    v.push(Category { canonical: "security", aliases: Vec::new() });
    let mut game = Vec::new();
    game.push("games");
    v.push(Category { canonical: "game", aliases: game });
    v.push(Category { canonical: "other", aliases: Vec::new() });
    proof {
        assert forall|i: int| 0 <= i < 10 implies #[trigger] v@[i].canonical@ == category_names()[i]
            && str_views(v@[i].aliases@) == category_aliases(i) by {
            assert(str_views(v@[i].aliases@) =~= category_aliases(i));
        }
    }
    v
}

/// The platform keys.
pub fn platforms() -> (res: Vec<&'static str>)
    ensures
        str_views(res@) == platform_names(),
{
    let mut v = Vec::new();
    v.push("linux");
    v.push("windows");
    v.push("macos");
    v.push("macos-x86");
    assert(str_views(v@) =~= platform_names());
    v
}

/// The platform key and asset suffix pairs, in matching order.
pub fn platform_asset_suffixes() -> (res: Vec<(&'static str, &'static str)>)
    ensures
        pair_views(res@) == asset_suffixes(),
{
    let mut v = Vec::new();
    v.push(("linux", "-linux"));
    v.push(("windows", "-windows.exe"));
    v.push(("macos-x86", "-macos-x86"));
    v.push(("macos", "-macos"));
    assert(pair_views(v@) =~= asset_suffixes());
    v
}

/// Whether `p` is one of the platform keys.
pub fn known_platform(p: &str) -> (res: bool)
    ensures
        res == is_known_platform(p@),
{
    let ps = platforms();
    let mut i: usize = 0;
    while i < ps.len()
        invariant
            i <= ps@.len(),
            str_views(ps@) == platform_names(),
            forall|k: int| 0 <= k < i ==> platform_names()[k] != p@,
        decreases ps@.len() - i,
    {
        assert(str_views(ps@)[i as int] == ps@[i as int]@);
        if str_eq(ps[i], p) {
            assert(platform_names()[i as int] == p@);
            return true;
        }
        i = i + 1;
    }
    assert(str_views(ps@).len() == ps@.len());
    false
}

fn category_spells(c: &Category, s: &str) -> (res: bool)
    ensures
        res == (c.canonical@ == s@ || str_views(c.aliases@).contains(s@)),
{
    if str_eq(c.canonical, s) {
        return true;
    }
    let mut j: usize = 0;
    while j < c.aliases.len()
        invariant
            j <= c.aliases@.len(),
            forall|k: int| 0 <= k < j ==> c.aliases@[k]@ != s@,
        decreases c.aliases@.len() - j,
    {
        if str_eq(c.aliases[j], s) {
            assert(str_views(c.aliases@)[j as int] == s@);
            return true;
        }
        j = j + 1;
    }
    proof {
        let m = str_views(c.aliases@);
        if m.contains(s@) {
            let k = choose|k: int| 0 <= k < m.len() && m[k] == s@;
            assert(c.aliases@[k]@ == s@);
        }
    }
    false
}

impl Category {
    /// Resolve a manifest's `category` string the way the launcher does:
    /// trimmed, ASCII-lowercased, then matched against every canonical name
    /// and alias in list order.
    pub fn resolve(value: &str) -> (res: Option<Category>)
        ensures
            res is Some <==> category_resolves(value@),
            res matches Some(c) ==> exists|i: int|
                0 <= i < 10 && spells(i, normalized(value@)) && c.canonical@ == category_names()[i]
                    && str_views(c.aliases@) == category_aliases(i) && (forall|k: int|
                    0 <= k < i ==> !spells(k, normalized(value@))),
    {
        let norm = trim_lowercase(value);
        let mut cats = categories();
        let mut i: usize = 0;
        while i < cats.len()
            invariant
                i <= cats@.len(),
                cats@.len() == 10,
                norm@ == normalized(value@),
                forall|k: int|
                    0 <= k < 10 ==> #[trigger] cats@[k].canonical@ == category_names()[k]
                        && str_views(cats@[k].aliases@) == category_aliases(k),
                forall|k: int| 0 <= k < i ==> !spells(k, norm@),
            decreases cats@.len() - i,
        {
            let hit = category_spells(&cats[i], norm.as_str());
            assert(cats@[i as int].canonical@ == category_names()[i as int]);
            assert(hit == spells(i as int, norm@));
            if hit {
                let c = cats.remove(i);
                return Some(c);
            }
            i = i + 1;
        }
        None
    }

    /// Every accepted spelling, canonical first — what the schema enumerates.
    pub fn all_spellings() -> (res: Vec<&'static str>)
        ensures
            str_views(res@) == all_spellings_spec(),
    {
        let cats = categories();
        let mut out: Vec<&'static str> = Vec::new();
        assert(str_views(out@) =~= spellings_upto(0));
        let mut i: usize = 0;
        while i < cats.len()
            invariant
                i <= cats@.len(),
                cats@.len() == 10,
                forall|k: int|
                    0 <= k < 10 ==> #[trigger] cats@[k].canonical@ == category_names()[k]
                        && str_views(cats@[k].aliases@) == category_aliases(k),
                str_views(out@) == spellings_upto(i as int),
            decreases cats@.len() - i,
        {
            let c = &cats[i];
            assert(cats@[i as int].canonical@ == category_names()[i as int]);
            out.push(c.canonical);
            let mut j: usize = 0;
            let ghost base = spellings_upto(i as int).push(category_names()[i as int]);
            assert(str_views(out@) =~= base);
            while j < c.aliases.len()
                invariant
                    j <= c.aliases@.len(),
                    str_views(c.aliases@) == category_aliases(i as int),
                    str_views(out@) == base + category_aliases(i as int).take(
                        j as int,
                    ),
                decreases c.aliases@.len() - j,
            {
                out.push(c.aliases[j]);
                proof {
                    let al = category_aliases(i as int);
                    assert(str_views(c.aliases@)[j as int] == al[j as int]);
                    assert(al.take(j + 1) =~= al.take(j as int).push(al[j as int]));
                    assert(str_views(out@) =~= base + al.take(j + 1));
                }
                j = j + 1;
            }
            proof {
                let al = category_aliases(i as int);
                assert(al.take(al.len() as int) =~= al);
            }
            i = i + 1;
        }
        out
    }
}

/// What is wrong with one `releaseFiles` entry.
#[derive(Debug, Clone, Copy, PartialEq, Eq, Structural)]
pub enum EntryProblem {
    /// `tag` is empty once trimmed.
    EmptyTag,
    /// Neither `file` nor `filePattern` is given.
    NeedsFileOrPattern,
    /// Both `file` and `filePattern` are given.
    FileAndPattern,
    /// `sha256` is not 64 hex characters.
    BadSha256,
    /// `sha256` is hex written in uppercase.
    UppercaseSha256,
}

/// Which asset to fetch for one platform, and how to treat it once
/// downloaded.
#[derive(Debug, Clone, PartialEq, Eq)]
pub struct ReleaseFileEntry {
    /// A git tag, or the literal `"latest"` to always track the newest release.
    pub tag: String,
    /// Exact asset filename. Mutually exclusive with `file_pattern`.
    pub file: Option<String>,
    /// Case-insensitive pattern matched against the release's asset names.
    pub file_pattern: Option<String>,
    /// Binary to extract from inside the downloaded archive.
    pub binary: Option<String>,
    /// Optional SHA-256 of the asset, as 64 lowercase hex characters.
    pub sha256: Option<String>,
}

pub open spec fn all_hex(s: Seq<char>) -> bool {
    forall|i: int| 0 <= i < s.len() ==> is_hex_char(#[trigger] s[i])
}

pub open spec fn some_upper(s: Seq<char>) -> bool {
    exists|i: int| 0 <= i < s.len() && is_upper_char(#[trigger] s[i])
}

/// The problem the launcher would have with an entry, checked in the order
/// tag, file/pattern, checksum; `None` when it is fine.
pub open spec fn entry_problem(e: ReleaseFileEntry) -> Option<EntryProblem> {
    if is_blank_seq(e.tag@) {
        Some(EntryProblem::EmptyTag)
    } else if e.file is None && e.file_pattern is None {
        Some(EntryProblem::NeedsFileOrPattern)
    } else if e.file is Some && e.file_pattern is Some {
        Some(EntryProblem::FileAndPattern)
    } else {
        match e.sha256 {
            Some(sha) => if encode_utf8(sha@).len() != 64 || !all_hex(sha@) {
                Some(EntryProblem::BadSha256)
            } else if some_upper(sha@) {
                Some(EntryProblem::UppercaseSha256)
            } else {
                None
            },
            None => None,
        }
    }
}

impl ReleaseFileEntry {
    /// Checks the entry filed under `platform`.
    pub fn validate(&self, platform: &str) -> (res: Result<(), ManifestError>)
        ensures
            res is Ok <==> entry_problem(*self) is None,
            res matches Err(e) ==> e matches ManifestError::Entry { platform: p, problem: q }
                && p@ == platform@ && Some(q) == entry_problem(*self),
    {
        match self.problem() {
            None => Ok(()),
            Some(p) => Err(ManifestError::Entry { platform: platform.to_owned(), problem: p }),
        }
    }

    /// The first problem with the entry, if any.
    pub fn problem(&self) -> (res: Option<EntryProblem>)
        ensures
            res == entry_problem(*self),
            res is None ==> (self.sha256 matches Some(s) ==> s@.len() == 64 && forall|i: int|
                0 <= i < s@.len() ==> is_lower_hex_digit(#[trigger] s@[i])),
    {
        proof {
            if entry_problem(*self) is None {
                law_accepted_checksum_is_sha256(*self);
            }
        }
        if is_blank(self.tag.as_str()) {
            return Some(EntryProblem::EmptyTag);
        }
        if self.file.is_none() && self.file_pattern.is_none() {
            return Some(EntryProblem::NeedsFileOrPattern);
        }
        if self.file.is_some() && self.file_pattern.is_some() {
            return Some(EntryProblem::FileAndPattern);
        }
        match &self.sha256 {
            None => None,
            Some(sha) => {
                let s = sha.as_str();
                assert(s@.skip(0) =~= s@);
                if !utf8_len_from_is(s, 0, 64) || !all_hex_str(s) {
                    return Some(EntryProblem::BadSha256);
                }
                if any_upper_str(s) {
                    return Some(EntryProblem::UppercaseSha256);
                }
                None
            },
        }
    }
}

fn all_hex_str(s: &str) -> (res: bool)
    ensures
        res == all_hex(s@),
{
    let n = s.unicode_len();
    let mut i: usize = 0;
    while i < n
        invariant
            i <= n,
            n == s@.len(),
            forall|k: int| 0 <= k < i ==> is_hex_char(#[trigger] s@[k]),
        decreases n - i,
    {
        if !is_hex_digit(s.get_char(i)) {
            return false;
        }
        i = i + 1;
    }
    true
}

fn any_upper_str(s: &str) -> (res: bool)
    ensures
        res == some_upper(s@),
{
    let n = s.unicode_len();
    let mut i: usize = 0;
    while i < n
        invariant
            i <= n,
            n == s@.len(),
            forall|k: int| 0 <= k < i ==> !is_upper_char(#[trigger] s@[k]),
        decreases n - i,
    {
        if is_ascii_upper(s.get_char(i)) {
            return true;
        }
        i = i + 1;
    }
    false
}

/// The `releaseFiles` table: platform key to entry, in key order, each key
/// once — the shape of the JSON object it is read from.
pub type ReleaseFiles = StrMap<ReleaseFileEntry>;

/// A repository's `colony.json`.
pub struct ColonyManifest {
    /// Optional pointer to the generated schema, so editors validate the file
    /// as it is typed. The launcher ignores it.
    pub schema: Option<String>,
    /// Display name in the launcher.
    pub name: String,
    pub category: String,
    /// Platforms this program ships for; empty lets the launcher auto-detect
    /// them from the release asset names.
    pub platforms: Vec<String>,
    /// Explicit per-platform asset resolution.
    pub release_files: ReleaseFiles,
    /// Repo-relative path to a square PNG icon.
    pub icon: Option<String>,
    /// Require a valid detached signature for every asset.
    pub signed: bool,
}

/// Why the launcher would reject or silently ignore part of a manifest.
#[derive(Debug, PartialEq, Eq)]
pub enum ManifestError {
    EmptyName,
    UnknownCategory { category: String },
    UnknownPlatform { platform: String },
    UnknownReleasePlatform { platform: String },
    Entry { platform: String, problem: EntryProblem },
    MissingReleaseEntry { platform: String },
    IconNotPng { icon: String },
    IconNotRelative { icon: String },
}

pub open spec fn icon_is_png(icon: Seq<char>) -> bool {
    ends_with_seq(lower_seq(icon), ".png"@)
}

pub open spec fn icon_is_relative(icon: Seq<char>) -> bool {
    !(icon.len() > 0 && icon[0] == '/') && !has_double_dot(icon)
}

pub open spec fn names_ok(m: ColonyManifest) -> bool {
    !is_blank_seq(m.name@) && category_resolves(m.category@)
}

pub open spec fn platforms_known(m: ColonyManifest) -> bool {
    forall|i: int| 0 <= i < m.platforms@.len() ==> is_known_platform(#[trigger] m.platforms@[i]@)
}

pub open spec fn release_entry_ok(m: ColonyManifest, i: int) -> bool {
    is_known_platform(m.release_files.keys()[i]) && entry_problem(m.release_files.values()[i])
        is None
}

pub open spec fn release_files_ok(m: ColonyManifest) -> bool {
    forall|i: int| 0 <= i < m.release_files.keys().len() ==> #[trigger] release_entry_ok(m, i)
}

pub open spec fn platforms_resolvable(m: ColonyManifest) -> bool {
    m.release_files.keys().len() > 0 ==> forall|i: int|
        0 <= i < m.platforms@.len() ==> m.release_files.has_key(#[trigger] m.platforms@[i]@)
}

pub open spec fn icon_ok(m: ColonyManifest) -> bool {
    match m.icon {
        Some(icon) => icon_is_png(icon@) && icon_is_relative(icon@),
        None => true,
    }
}

/// Everything the launcher needs of a manifest.
pub open spec fn manifest_valid(m: ColonyManifest) -> bool {
    &&& names_ok(m)
    &&& platforms_known(m)
    &&& release_files_ok(m)
    &&& platforms_resolvable(m)
    &&& icon_ok(m)
}

/// `e` is the error the checks report for `m`: the checks run in the order
/// name, category, platforms, releaseFiles (in key order), declared
/// platforms covered, icon, and the first one that fails is reported.
pub open spec fn manifest_explains(m: ColonyManifest, e: ManifestError) -> bool {
    match e {
        ManifestError::EmptyName => is_blank_seq(m.name@),
        ManifestError::UnknownCategory { category } => !is_blank_seq(m.name@)
            && !category_resolves(m.category@) && category@ == m.category@,
        ManifestError::UnknownPlatform { platform } => names_ok(m) && exists|i: int|
            0 <= i < m.platforms@.len() && m.platforms@[i]@ == platform@ && !is_known_platform(
                platform@,
            ) && forall|k: int| 0 <= k < i ==> is_known_platform(#[trigger] m.platforms@[k]@),
        ManifestError::UnknownReleasePlatform { platform } => names_ok(m) && platforms_known(m)
            && exists|i: int|
            0 <= i < m.release_files.keys().len() && m.release_files.keys()[i] == platform@
                && !is_known_platform(platform@) && forall|k: int|
                0 <= k < i ==> #[trigger] release_entry_ok(m, k),
        ManifestError::Entry { platform, problem } => names_ok(m) && platforms_known(m) && exists|
            i: int,
        |
            0 <= i < m.release_files.keys().len() && m.release_files.keys()[i] == platform@
                && is_known_platform(platform@) && entry_problem(m.release_files.values()[i])
                == Some(problem) && forall|k: int| 0 <= k < i ==> #[trigger] release_entry_ok(m, k),
        ManifestError::MissingReleaseEntry { platform } => names_ok(m) && platforms_known(m)
            && release_files_ok(m) && m.release_files.keys().len() > 0 && exists|i: int|
            0 <= i < m.platforms@.len() && m.platforms@[i]@ == platform@
                && !m.release_files.has_key(platform@) && forall|k: int|
                0 <= k < i ==> m.release_files.has_key(#[trigger] m.platforms@[k]@),
        ManifestError::IconNotPng { icon } => {
            &&& names_ok(m)
            &&& platforms_known(m)
            &&& release_files_ok(m)
            &&& platforms_resolvable(m)
            &&& m.icon is Some
            &&& m.icon->0@ == icon@
            &&& !icon_is_png(icon@)
        },
        ManifestError::IconNotRelative { icon } => {
            &&& names_ok(m)
            &&& platforms_known(m)
            &&& release_files_ok(m)
            &&& platforms_resolvable(m)
            &&& m.icon is Some
            &&& m.icon->0@ == icon@
            &&& icon_is_png(icon@)
            &&& !icon_is_relative(icon@)
        },
    }
}

fn icon_png(icon: &str) -> (res: bool)
    ensures
        res == icon_is_png(icon@),
{
    let lower = crate::text::ascii_lowercase_from(icon, 0);
    assert(icon@.skip(0) =~= icon@);
    let n = lower.unicode_len();
    let suffix = ".png";
    proof {
        reveal_strlit(".png");
    }
    if n < 4 {
        return false;
    }
    let tail = lower.as_str().substring_char(n - 4, n);
    assert(lower@.skip(n - 4) =~= lower@.subrange(n - 4, n as int));
    str_eq(tail, suffix)
}

impl ColonyManifest {
    /// Everything the launcher would either reject outright or silently
    /// ignore.
    pub fn validate(&self) -> (res: Result<(), ManifestError>)
        ensures
            res is Ok <==> manifest_valid(*self),
            res matches Err(e) ==> manifest_explains(*self, e),
    {
        if is_blank(self.name.as_str()) {
            return Err(ManifestError::EmptyName);
        }
        if Category::resolve(self.category.as_str()).is_none() {
            return Err(ManifestError::UnknownCategory { category: self.category.clone() });
        }
        let mut i: usize = 0;
        while i < self.platforms.len()
            invariant
                i <= self.platforms@.len(),
                names_ok(*self),
                forall|k: int| 0 <= k < i ==> is_known_platform(#[trigger] self.platforms@[k]@),
            decreases self.platforms@.len() - i,
        {
            if !known_platform(self.platforms[i].as_str()) {
                assert(!is_known_platform(self.platforms@[i as int]@));
                return Err(ManifestError::UnknownPlatform { platform: self.platforms[i].clone() });
            }
            i = i + 1;
        }
        let n = self.release_files.len();
        let mut j: usize = 0;
        while j < n
            invariant
                j <= n,
                n == self.release_files.keys().len(),
                names_ok(*self),
                platforms_known(*self),
                forall|k: int| 0 <= k < j ==> #[trigger] release_entry_ok(*self, k),
            decreases n - j,
        {
            let (key, entry) = self.release_files.entry_at(j);
            if !known_platform(key.as_str()) {
                assert(!release_entry_ok(*self, j as int));
                return Err(ManifestError::UnknownReleasePlatform { platform: key.clone() });
            }
            if let Err(e) = entry.validate(key.as_str()) {
                assert(!release_entry_ok(*self, j as int));
                return Err(e);
            }
            assert(release_entry_ok(*self, j as int));
            j = j + 1;
        }
        if !self.release_files.is_empty() {
            let mut p: usize = 0;
            while p < self.platforms.len()
                invariant
                    p <= self.platforms@.len(),
                    names_ok(*self),
                    platforms_known(*self),
                    release_files_ok(*self),
                    self.release_files.keys().len() > 0,
                    forall|k: int|
                        0 <= k < p ==> self.release_files.has_key(#[trigger] self.platforms@[k]@),
                decreases self.platforms@.len() - p,
            {
                if !self.release_files.contains_key(self.platforms[p].as_str()) {
                    assert(!self.release_files.has_key(self.platforms@[p as int]@));
                    return Err(
                        ManifestError::MissingReleaseEntry { platform: self.platforms[p].clone() },
                    );
                }
                p = p + 1;
            }
        }
        if let Some(icon) = &self.icon {
            if !icon_png(icon.as_str()) {
                return Err(ManifestError::IconNotPng { icon: icon.clone() });
            }
            let starts_slash = icon.as_str().unicode_len() > 0 && icon.as_str().get_char(0) == '/';
            if starts_slash || contains_double_dot(icon.as_str()) {
                return Err(ManifestError::IconNotRelative { icon: icon.clone() });
            }
        }
        Ok(())
    }

    /// The asset name the launcher's auto-detection expects for a
    /// repository: the lowercased repository name with the platform's suffix.
    pub fn conventional_asset(repo_name: &str, platform: &str) -> (res: Option<String>)
        ensures
            res is Some <==> exists|i: int| 0 <= i < 4 && asset_suffixes()[i].0 == platform@,
            res matches Some(s) ==> exists|i: int|
                0 <= i < 4 && asset_suffixes()[i].0 == platform@ && s@ == lower_seq(repo_name@)
                    + asset_suffixes()[i].1 && forall|k: int|
                    0 <= k < i ==> asset_suffixes()[k].0 != platform@,
            res is Some <==> is_known_platform(platform@),
            res matches Some(s) ==> s@ == lower_seq(repo_name@) + "-"@ + platform@ + (if platform@
                == "windows"@ {
                ".exe"@
            } else {
                Seq::<char>::empty()
            }),
    {
        let table = platform_asset_suffixes();
        assert(pair_views(table@).len() == table@.len());
        let mut i: usize = 0;
        while i < table.len()
            invariant
                i <= table@.len(),
                table@.len() == 4,
                pair_views(table@) == asset_suffixes(),
                forall|k: int| 0 <= k < i ==> asset_suffixes()[k].0 != platform@,
            decreases table@.len() - i,
        {
            let (key, suffix) = table[i];
            assert(pair_views(table@)[i as int] == (key@, suffix@));
            if str_eq(key, platform) {
                let mut s = crate::text::ascii_lowercase_from(repo_name, 0);
                assert(repo_name@.skip(0) =~= repo_name@);
                s.append(suffix);
                assert(asset_suffixes()[i as int].0 == platform@);
                proof {
                    law_asset_suffix_is_the_platform(i as int);
                    assert(is_known_platform(platform@));
                }
                return Some(s);
            }
            i = i + 1;
        }
        assert(pair_views(table@).len() == table@.len());
        proof {
            if is_known_platform(platform@) {
                let m = choose|m: int| 0 <= m < platform_names().len() && platform_names()[m] == platform@;
                assert(asset_suffixes()[0].0 == platform_names()[0]);
                assert(asset_suffixes()[1].0 == platform_names()[1]);
                assert(asset_suffixes()[3].0 == platform_names()[2]);
                assert(asset_suffixes()[2].0 == platform_names()[3]);
            }
        }
        None
    }
}

} // verus!

verus! {

/// `parts` joined with `sep` between consecutive parts.
pub open spec fn join(parts: Seq<Seq<char>>, sep: Seq<char>) -> Seq<char>
    decreases parts.len(),
{
    if parts.len() == 0 {
        seq![]
    } else if parts.len() == 1 {
        parts[0]
    } else {
        join(parts.drop_last(), sep) + sep + parts.last()
    }
}

/// The message each manifest problem is reported with.
pub open spec fn manifest_error_message(e: ManifestError) -> Seq<char> {
    match e {
        ManifestError::EmptyName => "`name` must not be empty"@,
        ManifestError::UnknownCategory { category } => "unknown category "@ + spec_debug_str(
            category@,
        ) + " \u{2014} Colony ignores it and the program is filed nowhere. Valid: "@ + join(
            category_names(),
            ", "@,
        ),
        ManifestError::UnknownPlatform { platform } => "unknown platform "@ + spec_debug_str(
            platform@,
        ) + " \u{2014} valid: "@ + join(platform_names(), ", "@),
        ManifestError::UnknownReleasePlatform { platform } =>
            "releaseFiles has an unknown platform key "@ + spec_debug_str(platform@)
            + " \u{2014} valid: "@ + join(platform_names(), ", "@),
        ManifestError::Entry { platform, problem } => platform@ + entry_problem_text(problem),
        ManifestError::MissingReleaseEntry { platform } => "platform "@ + spec_debug_str(
            platform@,
        )
            + " is declared but has no releaseFiles entry; either add one or drop releaseFiles entirely and let Colony auto-detect from the asset names"@,
        ManifestError::IconNotPng { icon } => "`icon` must point at a PNG, got "@ + spec_debug_str(
            icon@,
        ),
        ManifestError::IconNotRelative { icon } =>
            "`icon` must be a repo-relative path without `..`, got "@ + spec_debug_str(icon@),
    }
}

pub open spec fn entry_problem_text(p: EntryProblem) -> Seq<char> {
    match p {
        EntryProblem::EmptyTag =>
            ": `tag` must not be empty (use \"latest\" to track the newest release)"@,
        EntryProblem::NeedsFileOrPattern => ": needs either `file` or `filePattern`"@,
        EntryProblem::FileAndPattern => ": `file` and `filePattern` are mutually exclusive"@,
        EntryProblem::BadSha256 => ": `sha256` must be 64 hex characters"@,
        EntryProblem::UppercaseSha256 => ": `sha256` must be lowercase"@,
    }
}

/// Joins the strings with `", "`.
fn join_comma(parts: &Vec<&'static str>) -> (res: String)
    ensures
        res@ == join(str_views(parts@), ", "@),
{
    let mut res = String::new();
    let mut i: usize = 0;
    while i < parts.len()
        invariant
            i <= parts@.len(),
            res@ == join(str_views(parts@).take(i as int), ", "@),
        decreases parts@.len() - i,
    {
        let ghost before = str_views(parts@).take(i as int);
        if i > 0 {
            res.append(", ");
        }
        res.append(parts[i]);
        proof {
            let now = str_views(parts@).take(i + 1);
            assert(now.drop_last() =~= before);
            assert(now.last() == parts@[i as int]@);
            if i == 0 {
                assert(before.len() == 0);
                assert(res@ =~= now[0]);
            }
        }
        i = i + 1;
    }
    assert(str_views(parts@).take(parts@.len() as int) =~= str_views(parts@));
    res
}

#[verifier::spinoff_prover]
fn canonical_names() -> (res: Vec<&'static str>)
    ensures
        str_views(res@) == category_names(),
{
    let cats = categories();
    let mut out: Vec<&'static str> = Vec::new();
    assert(str_views(out@) =~= category_names().take(0));
    let mut i: usize = 0;
    while i < cats.len()
        invariant
            i <= cats@.len(),
            cats@.len() == 10,
            forall|k: int|
                0 <= k < 10 ==> #[trigger] cats@[k].canonical@ == category_names()[k]
                    && str_views(cats@[k].aliases@) == category_aliases(k),
            str_views(out@) == category_names().take(i as int),
        decreases cats@.len() - i,
    {
        assert(cats@[i as int].canonical@ == category_names()[i as int]);
        let ghost prev = out@;
        out.push(cats[i].canonical);
        assert(out@ =~= prev.push(cats@[i as int].canonical));
        assert(str_views(out@) =~= str_views(prev).push(cats@[i as int].canonical@));
        assert(str_views(out@) =~= category_names().take(i + 1));
        i = i + 1;
    }
    assert(category_names().take(10) =~= category_names());
    out
}

impl ManifestError {
    /// The message the problem is reported with.
    pub fn message(&self) -> (m: String)
        ensures
            m@ == manifest_error_message(*self),
    {
        match self {
            ManifestError::EmptyName => String::from_str("`name` must not be empty"),
            ManifestError::UnknownCategory { category } => {
                let mut m = String::from_str("unknown category ");
                m.append(debug_str(category.as_str()).as_str());
                m.append(" \u{2014} Colony ignores it and the program is filed nowhere. Valid: ");
                m.append(join_comma(&canonical_names()).as_str());
                m
            },
            ManifestError::UnknownPlatform { platform } => {
                let mut m = String::from_str("unknown platform ");
                m.append(debug_str(platform.as_str()).as_str());
                m.append(" \u{2014} valid: ");
                m.append(join_comma(&platforms()).as_str());
                m
            },
            ManifestError::UnknownReleasePlatform { platform } => {
                let mut m = String::from_str("releaseFiles has an unknown platform key ");
                m.append(debug_str(platform.as_str()).as_str());
                m.append(" \u{2014} valid: ");
                m.append(join_comma(&platforms()).as_str());
                m
            },
            ManifestError::Entry { platform, problem } => {
                let mut m = platform.clone();
                let text = match problem {
                    EntryProblem::EmptyTag =>
                        ": `tag` must not be empty (use \"latest\" to track the newest release)",
                    EntryProblem::NeedsFileOrPattern => ": needs either `file` or `filePattern`",
                    EntryProblem::FileAndPattern =>
                        ": `file` and `filePattern` are mutually exclusive",
                    EntryProblem::BadSha256 => ": `sha256` must be 64 hex characters",
                    EntryProblem::UppercaseSha256 => ": `sha256` must be lowercase",
                };
                m.append(text);
                m
            },
            ManifestError::MissingReleaseEntry { platform } => {
                let mut m = String::from_str("platform ");
                m.append(debug_str(platform.as_str()).as_str());
                m.append(
                    " is declared but has no releaseFiles entry; either add one or drop releaseFiles entirely and let Colony auto-detect from the asset names",
                );
                m
            },
            ManifestError::IconNotPng { icon } => {
                let mut m = String::from_str("`icon` must point at a PNG, got ");
                m.append(debug_str(icon.as_str()).as_str());
                m
            },
            ManifestError::IconNotRelative { icon } => {
                let mut m = String::from_str("`icon` must be a repo-relative path without `..`, got ");
                m.append(debug_str(icon.as_str()).as_str());
                m
            },
        }
    }
}

} // verus!

verus! {

/// A lowercase hex digit: `0`-`9` or `a`-`f`.
pub open spec fn is_lower_hex_digit(c: char) -> bool {
    ('0' <= c && c <= '9') || ('a' <= c && c <= 'f')
}

proof fn lemma_hex_is_one_byte(s: Seq<char>)
    requires
        forall|i: int| 0 <= i < s.len() ==> is_hex_char(#[trigger] s[i]),
    ensures
        encode_utf8(s).len() == s.len(),
    decreases s.len(),
{
    if s.len() > 0 {
        assert(is_hex_char(s[0]));
        assert(has_width_1_encoding(s[0] as u32));
        assert forall|i: int| 0 <= i < s.drop_first().len() implies is_hex_char(#[trigger] s.drop_first()[i]) by {
            assert(s.drop_first()[i] == s[i + 1]);
        }
        lemma_hex_is_one_byte(s.drop_first());
    }
}

/// A release entry the launcher accepts carries, if any checksum, exactly
/// 64 characters, each a lowercase hex digit: a SHA-256 digest, no longer and
/// no shorter.
pub proof fn law_accepted_checksum_is_sha256(e: ReleaseFileEntry)
    requires
        entry_problem(e) is None,
    ensures
        e.sha256 matches Some(s) ==> s@.len() == 64 && forall|i: int|
            0 <= i < s@.len() ==> is_lower_hex_digit(#[trigger] s@[i]),
{
    if let Some(s) = e.sha256 {
        lemma_hex_is_one_byte(s@);
        assert forall|i: int| 0 <= i < s@.len() implies is_lower_hex_digit(#[trigger] s@[i]) by {
            assert(is_hex_char(s@[i]));
            if is_upper_char(s@[i]) {
                assert(some_upper(s@));
            }
        }
    }
}

/// A manifest that validates has, in each release entry, no checksum or a
/// 64-character lowercase hex one.
pub proof fn law_valid_manifest_checksums(m: ColonyManifest, i: int)
    requires
        manifest_valid(m),
        0 <= i < m.release_files.keys().len(),
    ensures
        m.release_files.values()[i].sha256 matches Some(s) ==> s@.len() == 64 && forall|k: int|
            0 <= k < s@.len() ==> is_lower_hex_digit(#[trigger] s@[k]),
{
    assert(release_entry_ok(m, i));
    law_accepted_checksum_is_sha256(m.release_files.values()[i]);
}

/// The conventional asset of a platform is named after the platform itself:
/// `-` and the platform's name, with `.exe` for Windows; so each known
/// platform has its own suffix, `macos` exactly `-macos`.
pub proof fn law_asset_suffix_is_the_platform(i: int)
    requires
        0 <= i < asset_suffixes().len(),
    ensures
        asset_suffixes()[i].1 == "-"@ + asset_suffixes()[i].0 + (if asset_suffixes()[i].0 == "windows"@ {
            ".exe"@
        } else {
            Seq::<char>::empty()
        }),
        is_known_platform(asset_suffixes()[i].0),
        forall|j: int| 0 <= j < asset_suffixes().len() && j != i ==> asset_suffixes()[j].0 != asset_suffixes()[i].0,
        asset_suffixes().len() == platform_names().len(),
{
    reveal_strlit("linux");
    reveal_strlit("windows");
    reveal_strlit("macos");
    reveal_strlit("macos-x86");
    reveal_strlit("-linux");
    reveal_strlit("-windows.exe");
    reveal_strlit("-macos-x86");
    reveal_strlit("-macos");
    reveal_strlit("-");
    reveal_strlit(".exe");
    assert("-"@ + "linux"@ + Seq::<char>::empty() =~= "-linux"@);
    assert("-"@ + "windows"@ + ".exe"@ =~= "-windows.exe"@);
    assert("-"@ + "macos-x86"@ + Seq::<char>::empty() =~= "-macos-x86"@);
    assert("-"@ + "macos"@ + Seq::<char>::empty() =~= "-macos"@);
    assert(platform_names()[0] == "linux"@);
    assert(platform_names()[1] == "windows"@);
    assert(platform_names()[2] == "macos"@);
    assert(platform_names()[3] == "macos-x86"@);
    assert("linux"@.len() != "windows"@.len());
    assert("linux"@[0] != "macos"@[0]);
    assert("linux"@.len() != "macos-x86"@.len());
    assert("windows"@.len() != "macos"@.len());
    assert("windows"@.len() != "macos-x86"@.len());
    assert("macos"@.len() != "macos-x86"@.len());
}

} // verus!
