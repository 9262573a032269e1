//! The repository catalog: repository definitions read from INI-like files
//! and the packages that each repository's cached metadata offers.

use vstd::prelude::*;
use vstd::string::StringExecFns;
use crate::backend::fedora::listing::{is_listing_of, package_views, sorted_unique};
use crate::backend::fedora::types::{
    clone_strings, DiagnosticIssue, DiagnosticIssueView, Package, PackageInfo, PackageInfoView,
    PackageView, RepositoryMetadata, RepositoryMetadataView,
};
use crate::engine::errors::{ErrorView, RatpmError};
use crate::text::{
    chars_of, contains, contains_text, copy_range, lowercased, parse_i32, parse_i32_spec,
    split_on, split_on_char, split_once, split_once_char, split_words, string_of, string_texts,
    texts, trim, trimmed, words,
};

verus! {

// ---------------------------------------------------------------------------
// Repository-definition files
// ---------------------------------------------------------------------------

/// What one line of a repository-definition file says.
pub enum LineKind {
    /// A blank line or a `#` comment.
    Blank,
    /// `[title]`: the start of a repository entry.
    Header(Seq<char>),
    /// `key = value`.
    Entry(Seq<char>, Seq<char>),
    /// Anything else; it is ignored.
    Other,
}

/// Reads one line: it is trimmed, then it is blank or a comment, a section
/// header, a `key = value` pair with both sides trimmed, or something else.
pub open spec fn classify(raw: Seq<char>) -> LineKind {
    let line = trimmed(raw);
    if line.len() == 0 || line[0] == '#' {
        LineKind::Blank
    } else if line[0] == '[' && line.last() == ']' {
        LineKind::Header(line.subrange(1, line.len() - 1))
    } else {
        match split_once(line, '=') {
            Some((key, value)) => LineKind::Entry(trimmed(key), trimmed(value)),
            None => LineKind::Other,
        }
    }
}

/// One `[title]` section with its `key = value` pairs in file order.
pub struct SectionView {
    pub name: Seq<char>,
    pub entries: Seq<(Seq<char>, Seq<char>)>,
}

/// The section that is open, as a sequence of none or one.
pub open spec fn flushed(current: Option<SectionView>) -> Seq<SectionView> {
    match current {
        Some(s) => seq![s],
        None => Seq::empty(),
    }
}

/// The sections that `lines` complete, given the section that is open before
/// them. Pairs before the first header belong to no section.
pub open spec fn sections_from(lines: Seq<Seq<char>>, current: Option<SectionView>) -> Seq<
    SectionView,
>
    decreases lines.len(),
{
    if lines.len() == 0 {
        flushed(current)
    } else {
        match classify(lines[0]) {
            LineKind::Header(name) => flushed(current) + sections_from(
                lines.skip(1),
                Some(SectionView { name, entries: Seq::empty() }),
            ),
            LineKind::Entry(key, value) => sections_from(
                lines.skip(1),
                match current {
                    Some(s) => Some(SectionView { entries: s.entries.push((key, value)), ..s }),
                    None => None,
                },
            ),
            _ => sections_from(lines.skip(1), current),
        }
    }
}

/// The sections of a repository-definition file.
pub open spec fn sections_of(content: Seq<char>) -> Seq<SectionView> {
    sections_from(split_on(content, '\n'), None)
}

/// The value that `entries` give to `key`: that of the last pair with this key.
pub open spec fn value_of(entries: Seq<(Seq<char>, Seq<char>)>, key: Seq<char>) -> Option<
    Seq<char>,
>
    decreases entries.len(),
{
    if entries.len() == 0 {
        None
    } else if entries.last().0 == key {
        Some(entries.last().1)
    } else {
        value_of(entries.drop_last(), key)
    }
}

/// A 0/1 switch: on when the value reads as the number 1, off when it reads
/// as another number, `default` when it is absent or no number.
pub open spec fn switch(value: Option<Seq<char>>, default: bool) -> bool {
    match value {
        Some(v) => match parse_i32_spec(v) {
            Some(n) => n == 1,
            None => default,
        },
        None => default,
    }
}

/// Whether a value is present and not empty.
pub open spec fn filled(value: Option<Seq<char>>) -> bool {
    value matches Some(v) && v.len() > 0
}

/// The source of a repository: the first of `baseurl`, `metalink` and
/// `mirrorlist` that is present and not empty.
pub open spec fn source_of(entries: Seq<(Seq<char>, Seq<char>)>) -> Option<Seq<char>> {
    if filled(value_of(entries, "baseurl"@)) {
        value_of(entries, "baseurl"@)
    } else if filled(value_of(entries, "metalink"@)) {
        value_of(entries, "metalink"@)
    } else if filled(value_of(entries, "mirrorlist"@)) {
        value_of(entries, "mirrorlist"@)
    } else {
        None
    }
}

/// The message that refuses a repository without a source.
pub open spec fn no_url_message(name: Seq<char>) -> Seq<char> {
    "Repository '"@ + name + "' has no URL specified"@
}

/// The repository that a section declares: nothing when it is disabled, a
/// refusal when it is enabled and names no source.
pub open spec fn built(section: SectionView, gpgcheck: bool) -> Result<
    Option<RepositoryMetadataView>,
    Seq<char>,
> {
    if !switch(value_of(section.entries, "enabled"@), true) {
        Ok(None)
    } else {
        match source_of(section.entries) {
            None => Err(no_url_message(section.name)),
            Some(url) => Ok(
                Some(
                    RepositoryMetadataView {
                        name: section.name,
                        baseurl: url,
                        enabled: true,
                        gpgcheck: switch(value_of(section.entries, "gpgcheck"@), gpgcheck),
                        gpgkey: match value_of(section.entries, "gpgkey"@) {
                            Some(v) => words(v),
                            None => Seq::empty(),
                        },
                        last_refresh: None,
                    },
                ),
            ),
        }
    }
}

/// The repositories that `sections` declare, in order; the first refusal
/// refuses them all.
pub open spec fn repositories_of(sections: Seq<SectionView>, gpgcheck: bool) -> Result<
    Seq<RepositoryMetadataView>,
    Seq<char>,
>
    decreases sections.len(),
{
    if sections.len() == 0 {
        Ok(Seq::empty())
    } else {
        match built(sections[0], gpgcheck) {
            Err(msg) => Err(msg),
            Ok(first) => match repositories_of(sections.skip(1), gpgcheck) {
                Err(msg) => Err(msg),
                Ok(rest) => Ok(
                    (match first {
                        Some(repo) => seq![repo],
                        None => Seq::empty(),
                    }) + rest,
                ),
            },
        }
    }
}

/// The enabled repositories that a repository-definition file declares, or
/// why the file is refused.
pub open spec fn parsed(content: Seq<char>, gpgcheck: bool) -> Result<
    Seq<RepositoryMetadataView>,
    Seq<char>,
> {
    repositories_of(sections_of(content), gpgcheck)
}

/// The repository configurations held by a sequence of records.
pub open spec fn metadata_views(v: Seq<RepositoryMetadata>) -> Seq<RepositoryMetadataView> {
    Seq::new(v.len(), |i: int| v[i]@)
}

/// The pairs of texts held by a sequence of string pairs.
pub open spec fn entry_views(v: Seq<(String, String)>) -> Seq<(Seq<char>, Seq<char>)> {
    Seq::new(v.len(), |i: int| (v[i].0@, v[i].1@))
}

/// One section as it is read.
pub struct Section {
    pub name: String,
    pub entries: Vec<(String, String)>,
}

impl View for Section {
    type V = SectionView;

    open spec fn view(&self) -> SectionView {
        SectionView { name: self.name@, entries: entry_views(self.entries@) }
    }
}

/// The sections held by a sequence of records.
pub open spec fn section_views(v: Seq<Section>) -> Seq<SectionView> {
    Seq::new(v.len(), |i: int| v[i]@)
}

/// The view of the section that is open, if one is.
pub open spec fn open_view(current: Option<Section>) -> Option<SectionView> {
    match current {
        Some(s) => Some(s@),
        None => None,
    }
}

/// What a line says, as read.
enum Line {
    Blank,
    Header(String),
    Entry(String, String),
    Other,
}

impl Line {
    spec fn kind(self) -> LineKind {
        match self {
            Line::Blank => LineKind::Blank,
            Line::Header(name) => LineKind::Header(name@),
            Line::Entry(key, value) => LineKind::Entry(key@, value@),
            Line::Other => LineKind::Other,
        }
    }
}

fn read_line(raw: &Vec<char>) -> (r: Line)
    ensures
        r.kind() == classify(raw@),
{
    let line = trim(raw);
    if line.len() == 0 || line[0] == '#' {
        return Line::Blank;
    }
    if line[0] == '[' && line[line.len() - 1] == ']' {
        let name = copy_range(&line, 1, line.len() - 1);
        return Line::Header(string_of(&name));
    }
    match split_once_char(&line, '=') {
        Some((key, value)) => Line::Entry(string_of(&trim(&key)), string_of(&trim(&value))),
        None => Line::Other,
    }
}

/// Reads the sections of a repository-definition file.
pub fn read_sections(content: &str) -> (r: Vec<Section>)
    ensures
        section_views(r@) == sections_of(content@),
{
    let text = chars_of(content);
    let lines = split_on_char(&text, '\n');
    let ghost all = texts(lines@);
    let mut done: Vec<Section> = Vec::new();
    let mut current: Option<Section> = None;
    let mut i: usize = 0;
    proof {
        assert(all.skip(0) == all);
        assert(section_views(done@) + sections_from(all, None) == sections_from(all, None));
    }
    while i < lines.len()
        invariant
            i <= lines.len(),
            all == texts(lines@),
            section_views(done@) + sections_from(all.skip(i as int), open_view(current))
                == sections_from(all, None),
        decreases lines.len() - i,
    {
        let ghost rest = all.skip(i as int);
        let ghost before = section_views(done@);
        let ghost open_before = open_view(current);
        proof {
            assert(rest[0] == lines@[i as int]@);
            assert(rest.skip(1) == all.skip(i + 1));
        }
        match read_line(&lines[i]) {
            Line::Header(name) => {
                match current {
                    Some(section) => {
                        done.push(section);
                        assert(section_views(done@) =~= before + seq![section@]);
                    },
                    None => {
                        assert(before + Seq::<SectionView>::empty() =~= before);
                    },
                }
                let fresh = Section { name, entries: Vec::new() };
                assert(fresh@.entries =~= Seq::empty());
                current = Some(fresh);
                proof {
                    let tail = sections_from(rest.skip(1), open_view(current));
                    assert((before + flushed(open_before)) + tail =~= before + (flushed(
                        open_before,
                    ) + tail));
                }
            },
            Line::Entry(key, value) => {
                match current {
                    Some(mut section) => {
                        let ghost old_entries = section@.entries;
                        section.entries.push((key, value));
                        assert(section@.entries =~= old_entries.push((key@, value@)));
                        current = Some(section);
                    },
                    None => {
                        current = None;
                    },
                }
            },
            _ => {},
        }
        i += 1;
    }
    proof {
        assert(all.skip(lines.len() as int).len() == 0);
    }
    let ghost before = section_views(done@);
    match current {
        Some(section) => {
            done.push(section);
            assert(section_views(done@) =~= before + seq![section@]);
        },
        None => {
            assert(before + Seq::<SectionView>::empty() =~= before);
        },
    }
    done
}

/// The value that `entries` give to `key`.
pub fn lookup_value(entries: &Vec<(String, String)>, key: &str) -> (r: Option<String>)
    ensures
        match r {
            Some(v) => value_of(entry_views(entries@), key@) == Some(v@),
            None => value_of(entry_views(entries@), key@) is None,
        },
{
    let wanted = String::from_str(key);
    let ghost all = entry_views(entries@);
    let mut i: usize = entries.len();
    assert(all.take(i as int) == all);
    while i > 0
        invariant
            i <= entries.len(),
            all == entry_views(entries@),
            wanted@ == key@,
            value_of(all.take(i as int), key@) == value_of(all, key@),
        decreases i,
    {
        let ghost prefix = all.take(i as int);
        proof {
            assert(prefix.last() == (entries@[i - 1].0@, entries@[i - 1].1@));
            assert(prefix.drop_last() == all.take(i - 1));
        }
        if entries[i - 1].0 == wanted {
            return Some(entries[i - 1].1.clone());
        }
        i -= 1;
    }
    None
}

fn read_switch(value: &Option<String>, default: bool) -> (r: bool)
    ensures
        r == switch(
            match value {
                Some(v) => Some(v@),
                None => None,
            },
            default,
        ),
{
    match value {
        Some(v) => match parse_i32(&chars_of(v.as_str())) {
            Some(n) => n == 1,
            None => default,
        },
        None => default,
    }
}

fn is_filled(value: &Option<String>) -> (r: bool)
    ensures
        r == filled(
            match value {
                Some(v) => Some(v@),
                None => None,
            },
        ),
{
    match value {
        Some(v) => chars_of(v.as_str()).len() > 0,
        None => false,
    }
}

/// Builds the repository that a section declares, with `gpgcheck` as the
/// default of its signature check.
pub fn build_section(name: String, data: &Vec<(String, String)>, gpgcheck: bool) -> (r: Result<
    Option<RepositoryMetadata>,
    RatpmError,
>)
    ensures
        match r {
            Ok(Some(repo)) => built(
                SectionView { name: name@, entries: entry_views(data@) },
                gpgcheck,
            ) == Ok::<Option<RepositoryMetadataView>, Seq<char>>(Some(repo@)),
            Ok(None) => built(SectionView { name: name@, entries: entry_views(data@) }, gpgcheck)
                == Ok::<Option<RepositoryMetadataView>, Seq<char>>(None),
            Err(e) => built(SectionView { name: name@, entries: entry_views(data@) }, gpgcheck)
                matches Err(msg) && e@ == ErrorView::ConfigError(msg),
        },
{
    let enabled = read_switch(&lookup_value(data, "enabled"), true);
    if !enabled {
        return Ok(None);
    }
    let baseurl = lookup_value(data, "baseurl");
    let metalink = lookup_value(data, "metalink");
    let mirrorlist = lookup_value(data, "mirrorlist");
    let source = if is_filled(&baseurl) {
        baseurl
    } else if is_filled(&metalink) {
        metalink
    } else if is_filled(&mirrorlist) {
        mirrorlist
    } else {
        None
    };
    let url = match source {
        Some(url) => url,
        None => {
            let mut msg = String::from_str("Repository '");
            msg.append(name.as_str());
            msg.append("' has no URL specified");
            return Err(RatpmError::ConfigError(msg));
        },
    };
    let check = read_switch(&lookup_value(data, "gpgcheck"), gpgcheck);
    let mut gpgkey: Vec<String> = Vec::new();
    match lookup_value(data, "gpgkey") {
        Some(v) => {
            let parts = split_words(&chars_of(v.as_str()));
            let mut i: usize = 0;
            while i < parts.len()
                invariant
                    i <= parts.len(),
                    gpgkey.len() == i,
                    forall|j: int| 0 <= j < i ==> gpgkey@[j]@ == parts@[j]@,
                decreases parts.len() - i,
            {
                gpgkey.push(string_of(&parts[i]));
                i += 1;
            }
            assert(string_texts(gpgkey@) =~= texts(parts@));
        },
        None => {
            assert(string_texts(gpgkey@) =~= Seq::empty());
        },
    }
    Ok(
        Some(
            RepositoryMetadata {
                name,
                baseurl: url,
                enabled,
                gpgcheck: check,
                gpgkey,
                last_refresh: None,
            },
        ),
    )
}

/// Reads a repository-definition file: the enabled repositories it declares,
/// in file order, or the refusal of the first enabled section without a source.
pub fn parse_repo_text(content: &str, gpgcheck: bool) -> (r: Result<
    Vec<RepositoryMetadata>,
    RatpmError,
>)
    ensures
        match r {
            Ok(repos) => parsed(content@, gpgcheck) == Ok::<
                Seq<RepositoryMetadataView>,
                Seq<char>,
            >(metadata_views(repos@)),
            Err(e) => parsed(content@, gpgcheck) matches Err(msg) && e@ == ErrorView::ConfigError(
                msg,
            ),
        },
{
    let sections = read_sections(content);
    let ghost all = section_views(sections@);
    let mut repos: Vec<RepositoryMetadata> = Vec::new();
    let mut i: usize = 0;
    proof {
        assert(all.skip(0) == all);
        assert(metadata_views(repos@) =~= Seq::empty());
    }
    while i < sections.len()
        invariant
            i <= sections.len(),
            all == section_views(sections@),
            all == sections_of(content@),
            match repositories_of(all.skip(i as int), gpgcheck) {
                Ok(rest) => repositories_of(all, gpgcheck) == Ok::<
                    Seq<RepositoryMetadataView>,
                    Seq<char>,
                >(metadata_views(repos@) + rest),
                Err(msg) => repositories_of(all, gpgcheck) == Err::<
                    Seq<RepositoryMetadataView>,
                    Seq<char>,
                >(msg),
            },
        decreases sections.len() - i,
    {
        let ghost rest = all.skip(i as int);
        let ghost before = metadata_views(repos@);
        proof {
            assert(rest[0] == sections@[i as int]@);
            assert(rest.skip(1) == all.skip(i + 1));
        }
        let section = &sections[i];
        match build_section(section.name.clone(), &section.entries, gpgcheck) {
            Err(e) => {
                return Err(e);
            },
            Ok(Some(repo)) => {
                repos.push(repo);
                proof {
                    assert(metadata_views(repos@) =~= before + seq![repo@]);
                    match repositories_of(rest.skip(1), gpgcheck) {
                        Ok(tail) => {
                            assert((before + seq![repo@]) + tail =~= before + (seq![repo@] + tail));
                        },
                        Err(_) => {},
                    }
                }
            },
            Ok(None) => {
                proof {
                    match repositories_of(rest.skip(1), gpgcheck) {
                        Ok(tail) => {
                            assert(before + (Seq::<RepositoryMetadataView>::empty() + tail)
                                =~= before + tail);
                        },
                        Err(_) => {},
                    }
                }
            },
        }
        i += 1;
    }
    proof {
        assert(all.skip(sections.len() as int).len() == 0);
        assert(metadata_views(repos@) + Seq::<RepositoryMetadataView>::empty() =~= metadata_views(
            repos@,
        ));
    }
    Ok(repos)
}

// ---------------------------------------------------------------------------
// The catalog
// ---------------------------------------------------------------------------

/// The package records held by a sequence of package infos.
pub open spec fn info_views(v: Seq<PackageInfo>) -> Seq<PackageInfoView> {
    Seq::new(v.len(), |i: int| v[i]@)
}

/// The diagnostic findings held by a sequence of records.
pub open spec fn issue_views(v: Seq<DiagnosticIssue>) -> Seq<DiagnosticIssueView> {
    Seq::new(v.len(), |i: int| v[i]@)
}

/// The errors held by a sequence of records.
pub open spec fn error_views(v: Seq<RatpmError>) -> Seq<ErrorView> {
    Seq::new(v.len(), |i: int| v[i]@)
}

/// One repository of the catalog: its configuration and, when its metadata
/// is cached, the packages that it offers.
pub struct RepoEntryView {
    pub metadata: RepositoryMetadataView,
    pub cache: Option<Seq<PackageInfoView>>,
}

/// The mathematical content of a [`RepositoryManager`]. The repositories stand
/// in the order in which their names were first loaded.
pub struct CatalogView {
    pub repo_dir: Seq<char>,
    pub cache_dir: Seq<char>,
    pub gpgcheck: bool,
    pub repos: Seq<RepoEntryView>,
    /// What the packages on offer require: for each record, the name of a
    /// package and the names of the packages that it requires.
    pub requirements: Seq<(Seq<char>, Seq<Seq<char>>)>,
}

/// The requirements held by a sequence of records.
pub open spec fn requirement_views(v: Seq<(String, Vec<String>)>) -> Seq<
    (Seq<char>, Seq<Seq<char>>),
> {
    Seq::new(v.len(), |i: int| (v[i].0@, string_texts(v[i].1@)))
}

/// The names that the package called `name` requires: those of the first
/// record for that name, none when there is no such record.
pub open spec fn required_by(entries: Seq<(Seq<char>, Seq<Seq<char>>)>, name: Seq<char>) -> Seq<
    Seq<char>,
>
    decreases entries.len(),
{
    if entries.len() == 0 {
        Seq::empty()
    } else if entries[0].0 == name {
        entries[0].1
    } else {
        required_by(entries.skip(1), name)
    }
}

/// The position of the first repository called `name`, or the number of
/// repositories when there is none.
pub open spec fn position_of(repos: Seq<RepoEntryView>, name: Seq<char>) -> nat
    decreases repos.len(),
{
    if repos.len() == 0 || repos[0].metadata.name == name {
        0
    } else {
        1 + position_of(repos.skip(1), name)
    }
}

/// Whether no two repositories have the same name.
pub open spec fn names_distinct(repos: Seq<RepoEntryView>) -> bool {
    forall|i: int, j: int|
        0 <= i < j < repos.len() ==> (#[trigger] repos[i]).metadata.name != (
        #[trigger] repos[j]).metadata.name
}

/// The catalog after `m` is loaded: it replaces the configuration of the
/// repository of its name, whose cache stays, or it is added at the end.
pub open spec fn inserted(repos: Seq<RepoEntryView>, m: RepositoryMetadataView) -> Seq<
    RepoEntryView,
> {
    let i = position_of(repos, m.name) as int;
    if i < repos.len() {
        repos.update(i, RepoEntryView { metadata: m, cache: repos[i].cache })
    } else {
        repos.push(RepoEntryView { metadata: m, cache: None })
    }
}

/// The catalog after each of `ms` is loaded in turn.
pub open spec fn inserted_all(repos: Seq<RepoEntryView>, ms: Seq<RepositoryMetadataView>) -> Seq<
    RepoEntryView,
>
    decreases ms.len(),
{
    if ms.len() == 0 {
        repos
    } else {
        inserted(inserted_all(repos, ms.drop_last()), ms.last())
    }
}

/// The catalog after the repository-definition files `files` are loaded in
/// turn; a file that is refused changes nothing.
pub open spec fn loaded(repos: Seq<RepoEntryView>, files: Seq<Seq<char>>, gpgcheck: bool) -> Seq<
    RepoEntryView,
>
    decreases files.len(),
{
    if files.len() == 0 {
        repos
    } else {
        let before = loaded(repos, files.drop_last(), gpgcheck);
        match parsed(files.last(), gpgcheck) {
            Ok(ms) => inserted_all(before, ms),
            Err(_) => before,
        }
    }
}

/// The refusals met while loading `files`, in file order.
pub open spec fn load_failures(files: Seq<Seq<char>>, gpgcheck: bool) -> Seq<ErrorView>
    decreases files.len(),
{
    if files.len() == 0 {
        Seq::empty()
    } else {
        let before = load_failures(files.drop_last(), gpgcheck);
        match parsed(files.last(), gpgcheck) {
            Ok(_) => before,
            Err(msg) => before.push(ErrorView::ConfigError(msg)),
        }
    }
}

/// Whether a package passes `filter`: with no filter every package passes;
/// with one, its lowercase name or its lowercase summary must hold the
/// filter's text.
pub open spec fn selected(p: PackageInfoView, filter: Option<Seq<char>>) -> bool {
    match filter {
        None => true,
        Some(q) => contains_text(lowercased(p.name), q) || contains_text(
            lowercased(p.summary),
            q,
        ),
    }
}

/// The listing entries of the packages of `cache` that pass `filter`, in order.
pub open spec fn cache_selection(cache: Seq<PackageInfoView>, filter: Option<Seq<char>>) -> Seq<
    PackageView,
>
    decreases cache.len(),
{
    if cache.len() == 0 {
        Seq::empty()
    } else {
        let before = cache_selection(cache.drop_last(), filter);
        if selected(cache.last(), filter) {
            before.push(cache.last().listing())
        } else {
            before
        }
    }
}

/// The listing entries of the packages of all cached repositories that pass
/// `filter`, repository by repository.
pub open spec fn catalog_selection(repos: Seq<RepoEntryView>, filter: Option<Seq<char>>) -> Seq<
    PackageView,
>
    decreases repos.len(),
{
    if repos.len() == 0 {
        Seq::empty()
    } else {
        catalog_selection(repos.drop_last(), filter) + (match repos.last().cache {
            Some(cache) => cache_selection(cache, filter),
            None => Seq::empty(),
        })
    }
}

/// The first package of `cache` called `name`.
pub open spec fn find_in_cache(cache: Seq<PackageInfoView>, name: Seq<char>) -> Option<
    PackageInfoView,
>
    decreases cache.len(),
{
    if cache.len() == 0 {
        None
    } else if cache[0].name == name {
        Some(cache[0])
    } else {
        find_in_cache(cache.skip(1), name)
    }
}

/// What the repository `entry` offers under `name`, with the repository as
/// its origin.
pub open spec fn offered_by(entry: RepoEntryView, name: Seq<char>) -> Option<PackageInfoView> {
    match entry.cache {
        Some(cache) => match find_in_cache(cache, name) {
            Some(p) => Some(PackageInfoView { repo: entry.metadata.name, ..p }),
            None => None,
        },
        None => None,
    }
}

/// The package called `name` as offered by the first repository that has it.
pub open spec fn find_package(repos: Seq<RepoEntryView>, name: Seq<char>) -> Option<
    PackageInfoView,
>
    decreases repos.len(),
{
    if repos.len() == 0 {
        None
    } else {
        match offered_by(repos[0], name) {
            Some(p) => Some(p),
            None => find_package(repos.skip(1), name),
        }
    }
}

/// The finding that reports an enabled repository without cached metadata.
pub open spec fn missing_metadata(name: Seq<char>) -> DiagnosticIssueView {
    DiagnosticIssueView {
        severity: "warning"@,
        message: "Repository '"@ + name + "' has no cached metadata"@,
        suggestion: "Run 'ratpm update' to refresh repository metadata"@,
    }
}

/// One warning for each enabled repository without cached metadata, in order.
pub open spec fn health_issues(repos: Seq<RepoEntryView>) -> Seq<DiagnosticIssueView>
    decreases repos.len(),
{
    if repos.len() == 0 {
        Seq::empty()
    } else {
        let before = health_issues(repos.drop_last());
        if repos.last().metadata.enabled && repos.last().cache is None {
            before.push(missing_metadata(repos.last().metadata.name))
        } else {
            before
        }
    }
}

/// One repository after a refresh at time `now`: it is stamped, and it has a
/// cache, empty if it had none.
pub open spec fn refreshed_entry(entry: RepoEntryView, now: i64) -> RepoEntryView {
    RepoEntryView {
        metadata: RepositoryMetadataView { last_refresh: Some(now), ..entry.metadata },
        cache: match entry.cache {
            Some(cache) => Some(cache),
            None => Some(Seq::empty()),
        },
    }
}

/// The catalog after a refresh of every repository at time `now`.
pub open spec fn refreshed(repos: Seq<RepoEntryView>, now: i64) -> Seq<RepoEntryView> {
    Seq::new(repos.len(), |i: int| refreshed_entry(repos[i], now))
}

/// The catalog after `packages` became the cached metadata of the repository
/// called `name`; nothing changes when there is no such repository.
pub open spec fn with_cache(
    repos: Seq<RepoEntryView>,
    name: Seq<char>,
    packages: Seq<PackageInfoView>,
) -> Seq<RepoEntryView> {
    let i = position_of(repos, name) as int;
    if i < repos.len() {
        repos.update(i, RepoEntryView { metadata: repos[i].metadata, cache: Some(packages) })
    } else {
        repos
    }
}

/// Whether a repository can serve: it is enabled and has an address.
pub open spec fn usable(m: RepositoryMetadataView) -> bool {
    m.enabled && m.baseurl.len() > 0
}

/// Whether every repository of a catalog can serve. Every catalog built
/// through the manager's interface is so.
pub open spec fn all_usable(repos: Seq<RepoEntryView>) -> bool {
    forall|i: int| 0 <= i < repos.len() ==> usable((#[trigger] repos[i]).metadata)
}

impl CatalogView {
    /// Whether the catalog holds only repositories that are enabled and
    /// have an address.
    pub open spec fn in_order(self) -> bool {
        all_usable(self.repos)
    }
}

/// Whether the repository at `i` offers the package `info`: it bears the
/// name that is the package's origin, and its metadata is cached.
pub open spec fn offered_at(repos: Seq<RepoEntryView>, i: int, info: PackageInfoView) -> bool {
    &&& 0 <= i < repos.len()
    &&& repos[i].metadata.name == info.repo
    &&& repos[i].cache is Some
}

/// Whether a repository of the catalog offers the package `info`; in a
/// catalog in order, an enabled one.
pub open spec fn served_by(catalog: CatalogView, info: PackageInfoView) -> bool {
    exists|i: int| #[trigger]
        offered_at(catalog.repos, i, info) && (catalog.in_order()
            ==> catalog.repos[i].metadata.enabled)
}

/// What is found under a name bears that name.
pub proof fn lemma_found_in_cache(cache: Seq<PackageInfoView>, name: Seq<char>)
    ensures
        find_in_cache(cache, name) matches Some(p) ==> p.name == name,
    decreases cache.len(),
{
    if cache.len() > 0 && cache[0].name != name {
        lemma_found_in_cache(cache.skip(1), name);
    }
}

/// What the catalog offers under a name bears that name and comes from a
/// repository of the catalog whose metadata is cached.
pub proof fn lemma_found(catalog: Seq<RepoEntryView>, name: Seq<char>)
    ensures
        find_package(catalog, name) matches Some(p) ==> p.name == name && exists|i: int| #[trigger]
            offered_at(catalog, i, p),
    decreases catalog.len(),
{
    if catalog.len() > 0 {
        match offered_by(catalog[0], name) {
            Some(p) => {
                lemma_found_in_cache(catalog[0].cache->Some_0, name);
                assert(offered_at(catalog, 0, p));
            },
            None => {
                let rest = catalog.skip(1);
                lemma_found(rest, name);
                if find_package(rest, name) is Some {
                    let p = find_package(rest, name)->Some_0;
                    let i = choose|i: int| #[trigger] offered_at(rest, i, p);
                    assert(rest[i] == catalog[i + 1]);
                    assert(offered_at(catalog, i + 1, p));
                }
            },
        }
    }
}

/// A repository that a section builds can serve.
pub proof fn lemma_built_usable(section: SectionView, gpgcheck: bool)
    ensures
        built(section, gpgcheck) matches Ok(Some(m)) ==> usable(m),
{
}

/// Every repository that a repository-definition file declares can serve:
/// a disabled one is dropped, and one without an address refuses the file.
pub proof fn lemma_parsed_usable(sections: Seq<SectionView>, gpgcheck: bool)
    ensures
        repositories_of(sections, gpgcheck) matches Ok(ms) ==> forall|i: int|
            0 <= i < ms.len() ==> usable(#[trigger] ms[i]),
    decreases sections.len(),
{
    if sections.len() > 0 {
        lemma_built_usable(sections[0], gpgcheck);
        lemma_parsed_usable(sections.skip(1), gpgcheck);
        if repositories_of(sections, gpgcheck) is Ok {
            let ms = repositories_of(sections, gpgcheck)->Ok_0;
            let rest = repositories_of(sections.skip(1), gpgcheck)->Ok_0;
            let first = built(sections[0], gpgcheck)->Ok_0;
            assert forall|i: int| 0 <= i < ms.len() implies usable(#[trigger] ms[i]) by {
                match first {
                    Some(m) => {
                        if i > 0 {
                            assert(ms[i] == rest[i - 1]);
                        }
                    },
                    None => {
                        assert(ms[i] == rest[i]);
                    },
                }
            }
        }
    }
}

/// Loading a repository that can serve keeps a catalog in order.
pub proof fn lemma_inserted_usable(repos: Seq<RepoEntryView>, m: RepositoryMetadataView)
    requires
        all_usable(repos),
        usable(m),
    ensures
        all_usable(inserted(repos, m)),
{
    lemma_position_bounds(repos, m.name);
    let after = inserted(repos, m);
    assert forall|i: int| 0 <= i < after.len() implies usable((#[trigger] after[i]).metadata) by {
        if i < repos.len() && i != position_of(repos, m.name) {
            assert(after[i] == repos[i]);
        }
    }
}

/// Loading repositories that can serve keeps a catalog in order.
pub proof fn lemma_inserted_all_usable(repos: Seq<RepoEntryView>, ms: Seq<RepositoryMetadataView>)
    requires
        all_usable(repos),
        forall|i: int| 0 <= i < ms.len() ==> usable(#[trigger] ms[i]),
    ensures
        all_usable(inserted_all(repos, ms)),
    decreases ms.len(),
{
    if ms.len() > 0 {
        let init = ms.drop_last();
        assert forall|i: int| 0 <= i < init.len() implies usable(#[trigger] init[i]) by {
            assert(init[i] == ms[i]);
        }
        lemma_inserted_all_usable(repos, init);
        assert(usable(ms[ms.len() - 1]));
        lemma_inserted_usable(inserted_all(repos, init), ms.last());
    }
}

/// Loading repository-definition files keeps a catalog in order.
pub proof fn lemma_loaded_usable(repos: Seq<RepoEntryView>, files: Seq<Seq<char>>, gpgcheck: bool)
    requires
        all_usable(repos),
    ensures
        all_usable(loaded(repos, files, gpgcheck)),
    decreases files.len(),
{
    if files.len() > 0 {
        lemma_loaded_usable(repos, files.drop_last(), gpgcheck);
        let before = loaded(repos, files.drop_last(), gpgcheck);
        match parsed(files.last(), gpgcheck) {
            Ok(ms) => {
                lemma_parsed_usable(sections_of(files.last()), gpgcheck);
                lemma_inserted_all_usable(before, ms);
            },
            Err(_) => {},
        }
    }
}

/// Caching metadata and refreshing keep a catalog in order.
pub proof fn lemma_kept_usable(
    repos: Seq<RepoEntryView>,
    name: Seq<char>,
    packages: Seq<PackageInfoView>,
    now: i64,
)
    requires
        all_usable(repos),
    ensures
        all_usable(with_cache(repos, name, packages)),
        all_usable(refreshed(repos, now)),
{
    lemma_position_bounds(repos, name);
    let cached = with_cache(repos, name, packages);
    assert forall|i: int| 0 <= i < cached.len() implies usable((#[trigger] cached[i]).metadata) by {
        assert(cached[i].metadata == repos[i].metadata);
    }
    let fresh = refreshed(repos, now);
    assert forall|i: int| 0 <= i < fresh.len() implies usable((#[trigger] fresh[i]).metadata) by {
        assert(usable(repos[i].metadata));
    }
}

/// `position_of` is the one position before which no repository is called
/// `name` and at which one is, or the catalog ends.
pub proof fn lemma_position_of(repos: Seq<RepoEntryView>, name: Seq<char>, i: int)
    requires
        0 <= i <= repos.len(),
        forall|j: int| 0 <= j < i ==> (#[trigger] repos[j]).metadata.name != name,
        i == repos.len() || repos[i].metadata.name == name,
    ensures
        position_of(repos, name) == i,
    decreases i,
{
    if i > 0 {
        let t = repos.skip(1);
        assert forall|j: int| 0 <= j < i - 1 implies (#[trigger] t[j]).metadata.name != name by {
            assert(t[j] == repos[j + 1]);
        }
        lemma_position_of(t, name, i - 1);
    }
}

/// Loading a repository keeps the names of a catalog distinct.
pub proof fn lemma_inserted_distinct(repos: Seq<RepoEntryView>, m: RepositoryMetadataView)
    requires
        names_distinct(repos),
    ensures
        names_distinct(inserted(repos, m)),
{
    lemma_position_bounds(repos, m.name);
    let i = position_of(repos, m.name) as int;
    let after = inserted(repos, m);
    assert forall|a: int, b: int| 0 <= a < b < after.len() implies (
    #[trigger] after[a]).metadata.name != (#[trigger] after[b]).metadata.name by {
        if i < repos.len() {
            assert(after[a].metadata.name == repos[a].metadata.name);
            assert(after[b].metadata.name == repos[b].metadata.name);
        } else if b == repos.len() {
            assert(after[a] == repos[a]);
        } else {
            assert(after[a] == repos[a] && after[b] == repos[b]);
        }
    }
}

/// `position_of` stays within the catalog, names the repository it points
/// at, and passes over no repository of that name.
pub proof fn lemma_position_bounds(repos: Seq<RepoEntryView>, name: Seq<char>)
    ensures
        position_of(repos, name) <= repos.len(),
        position_of(repos, name) < repos.len() ==> repos[position_of(
            repos,
            name,
        ) as int].metadata.name == name,
        forall|j: int|
            0 <= j < position_of(repos, name) ==> (#[trigger] repos[j]).metadata.name != name,
    decreases repos.len(),
{
    if repos.len() == 0 || repos[0].metadata.name == name {
    } else {
        let t = repos.skip(1);
        lemma_position_bounds(t, name);
        assert forall|j: int| 0 <= j < position_of(repos, name) implies (
        #[trigger] repos[j]).metadata.name != name by {
            if j > 0 {
                assert(t[j - 1] == repos[j]);
            }
        }
    }
}

/// Loading repository-definition files keeps the names of a catalog distinct.
pub proof fn lemma_loaded_distinct(repos: Seq<RepoEntryView>, files: Seq<Seq<char>>, gpgcheck: bool)
    requires
        names_distinct(repos),
    ensures
        names_distinct(loaded(repos, files, gpgcheck)),
    decreases files.len(),
{
    if files.len() > 0 {
        lemma_loaded_distinct(repos, files.drop_last(), gpgcheck);
        let before = loaded(repos, files.drop_last(), gpgcheck);
        match parsed(files.last(), gpgcheck) {
            Ok(ms) => {
                lemma_inserted_all_distinct(before, ms);
            },
            Err(_) => {},
        }
    }
}

/// Loading repositories in turn keeps the names of a catalog distinct.
pub proof fn lemma_inserted_all_distinct(repos: Seq<RepoEntryView>, ms: Seq<RepositoryMetadataView>)
    requires
        names_distinct(repos),
    ensures
        names_distinct(inserted_all(repos, ms)),
    decreases ms.len(),
{
    if ms.len() > 0 {
        lemma_inserted_all_distinct(repos, ms.drop_last());
        lemma_inserted_distinct(inserted_all(repos, ms.drop_last()), ms.last());
    }
}

/// Taken on trust of the standard library and of `chrono`: the time that
/// has passed since the Unix epoch, as the system clock has it
/// (`UNIX_EPOCH.elapsed()`), is made a `chrono::DateTime` (`from_timestamp`)
/// and read back in seconds (`timestamp`). There is no result when the clock
/// stands before the epoch or beyond what `chrono` can hold. Nothing is
/// claimed of the value.
#[verifier::external_body]
fn current_timestamp() -> Option<i64> {
    match std::time::UNIX_EPOCH.elapsed() {
        Ok(since) => match chrono::DateTime::from_timestamp(since.as_secs() as i64, since.subsec_nanos()) {
            Some(now) => Some(now.timestamp()),
            None => None,
        },
        Err(_) => None,
    }
}

/// The message that reports a system clock that cannot be read as a time
/// after the Unix epoch.
pub open spec fn clock_message() -> Seq<char> {
    "System clock is out of range"@
}

/// Whether `after` and `result` are what a refresh of the catalog `before`
/// gives when the clock reads `now`: with a time, every repository is
/// refreshed at that time; without one, nothing changes and the refresh fails.
pub open spec fn refresh_result(
    before: CatalogView,
    now: Option<i64>,
    after: CatalogView,
    result: Result<(), ErrorView>,
) -> bool {
    match now {
        Some(time) => after == (CatalogView { repos: refreshed(before.repos, time), ..before })
            && result is Ok,
        None => after == before && result == Err::<(), ErrorView>(
            ErrorView::BackendError(clock_message()),
        ),
    }
}

/// The view of the result of an operation that yields nothing.
pub open spec fn outcome_view(r: Result<(), RatpmError>) -> Result<(), ErrorView> {
    match r {
        Ok(_) => Ok(()),
        Err(e) => Err(e@),
    }
}

struct RepoEntry {
    metadata: RepositoryMetadata,
    cache: Option<Vec<PackageInfo>>,
}

impl View for RepoEntry {
    type V = RepoEntryView;

    closed spec fn view(&self) -> RepoEntryView {
        RepoEntryView {
            metadata: self.metadata@,
            cache: match self.cache {
                Some(cache) => Some(info_views(cache@)),
                None => None,
            },
        }
    }
}

/// The catalog of repositories and of the packages they offer.
pub struct RepositoryManager {
    repo_dir: String,
    cache_dir: String,
    gpgcheck: bool,
    repositories: Vec<RepoEntry>,
    requirements: Vec<(String, Vec<String>)>,
}

impl View for RepositoryManager {
    type V = CatalogView;

    closed spec fn view(&self) -> CatalogView {
        CatalogView {
            repo_dir: self.repo_dir@,
            cache_dir: self.cache_dir@,
            gpgcheck: self.gpgcheck,
            repos: Seq::new(self.repositories@.len(), |i: int| self.repositories@[i]@),
            requirements: requirement_views(self.requirements@),
        }
    }
}

/// The listing entry of a package record.
pub fn listing_of(info: &PackageInfo) -> (r: Package)
    ensures
        r@ == info@.listing(),
{
    Package {
        name: info.name.clone(),
        version: info.version.clone(),
        arch: info.arch.clone(),
        summary: info.summary.clone(),
    }
}

fn passes(info: &PackageInfo, filter: &Option<Vec<char>>) -> (r: bool)
    ensures
        r == selected(
            info@,
            match filter {
                Some(q) => Some(q@),
                None => None,
            },
        ),
{
    match filter {
        None => true,
        Some(q) => {
            let name = info.name.as_str().to_lowercase();
            if contains(&chars_of(name.as_str()), q) {
                return true;
            }
            let summary = info.summary.as_str().to_lowercase();
            contains(&chars_of(summary.as_str()), q)
        },
    }
}

fn select_from_cache(cache: &Vec<PackageInfo>, filter: &Option<Vec<char>>) -> (r: Vec<Package>)
    ensures
        package_views(r@) == cache_selection(
            info_views(cache@),
            match filter {
                Some(q) => Some(q@),
                None => None,
            },
        ),
{
    let ghost all = info_views(cache@);
    let ghost f: Option<Seq<char>> = match filter {
        Some(q) => Some(q@),
        None => None,
    };
    let mut out: Vec<Package> = Vec::new();
    let mut i: usize = 0;
    assert(package_views(out@) =~= cache_selection(all.take(0), f));
    while i < cache.len()
        invariant
            i <= cache.len(),
            all == info_views(cache@),
            f == (match filter {
                Some(q) => Some(q@),
                None => None,
            }),
            package_views(out@) == cache_selection(all.take(i as int), f),
        decreases cache.len() - i,
    {
        proof {
            assert(all.take(i + 1).drop_last() == all.take(i as int));
            assert(all.take(i + 1).last() == cache@[i as int]@);
        }
        if passes(&cache[i], filter) {
            let ghost before = package_views(out@);
            let entry = listing_of(&cache[i]);
            out.push(entry);
            assert(package_views(out@) =~= before.push(entry@));
        }
        i += 1;
    }
    assert(all.take(cache.len() as int) == all);
    out
}

impl RepositoryManager {
    /// The catalog without repositories, which reads definitions from
    /// `repo_dir`, caches metadata below `cache_dir` and checks signatures
    /// by default as `gpgcheck` says.
    pub fn new(repo_dir: String, cache_dir: String, gpgcheck: bool) -> (r: Result<Self, RatpmError>)
        ensures
            r matches Ok(m) && m@ == (CatalogView {
                repo_dir: repo_dir@,
                cache_dir: cache_dir@,
                gpgcheck,
                repos: Seq::empty(),
                requirements: Seq::empty(),
            }) && m@.in_order(),
    {
        let m = Self {
            repo_dir,
            cache_dir,
            gpgcheck,
            repositories: Vec::new(),
            requirements: Vec::new(),
        };
        assert(m@.repos =~= Seq::empty());
        assert(m@.requirements =~= Seq::empty());
        Ok(m)
    }

    /// Replaces what is known of the requirements of the packages on offer:
    /// for each record, the name of a package and the names of the packages
    /// that it requires.
    pub fn load_requirements(&mut self, requirements: Vec<(String, Vec<String>)>)
        ensures
            final(self)@ == (CatalogView {
                requirements: requirement_views(requirements@),
                ..old(self)@
            }),
    {
        self.requirements = requirements;
    }

    /// The names that the package called `name` requires.
    pub fn requirements_of(&self, name: &str) -> (r: Vec<String>)
        ensures
            string_texts(r@) == required_by(self@.requirements, name@),
    {
        let wanted = String::from_str(name);
        let ghost all = self@.requirements;
        let mut i: usize = 0;
        assert(all.skip(0) == all);
        while i < self.requirements.len()
            invariant
                i <= self.requirements.len(),
                all == self@.requirements,
                wanted@ == name@,
                required_by(all.skip(i as int), name@) == required_by(all, name@),
            decreases self.requirements.len() - i,
        {
            proof {
                assert(all.skip(i as int)[0] == all[i as int]);
                assert(all.skip(i as int).skip(1) == all.skip(i + 1));
                assert(all[i as int] == (
                    self.requirements@[i as int].0@,
                    string_texts(self.requirements@[i as int].1@),
                ));
            }
            if self.requirements[i].0 == wanted {
                return clone_strings(&self.requirements[i].1);
            }
            i += 1;
        }
        proof {
            assert(all.skip(self.requirements.len() as int).len() == 0);
        }
        let none: Vec<String> = Vec::new();
        assert(string_texts(none@) =~= Seq::empty());
        none
    }

    /// The directory that holds the repository-definition files.
    pub fn repo_dir(&self) -> (r: &String)
        ensures
            r@ == self@.repo_dir,
    {
        &self.repo_dir
    }

    /// The directory below which repository metadata is cached.
    pub fn cache_dir(&self) -> (r: &String)
        ensures
            r@ == self@.cache_dir,
    {
        &self.cache_dir
    }

    /// The configurations of the repositories, in catalog order.
    pub fn repositories(&self) -> (r: Vec<RepositoryMetadata>)
        ensures
            r.len() == self@.repos.len(),
            forall|i: int| 0 <= i < r.len() ==> (#[trigger] r@[i])@ == self@.repos[i].metadata,
    {
        let mut r: Vec<RepositoryMetadata> = Vec::new();
        let mut i: usize = 0;
        while i < self.repositories.len()
            invariant
                i <= self.repositories.len(),
                r.len() == i,
                forall|j: int| 0 <= j < i ==> (#[trigger] r@[j])@ == self@.repos[j].metadata,
            decreases self.repositories.len() - i,
        {
            r.push(self.repositories[i].metadata.clone());
            i += 1;
        }
        r
    }

    fn find(&self, name: &str) -> (i: usize)
        ensures
            i == position_of(self@.repos, name@),
            i <= self.repositories@.len(),
    {
        let wanted = String::from_str(name);
        let mut i: usize = 0;
        while i < self.repositories.len() && !(self.repositories[i].metadata.name == wanted)
            invariant
                i <= self.repositories.len(),
                wanted@ == name@,
                forall|j: int| 0 <= j < i ==> (#[trigger] self@.repos[j]).metadata.name != name@,
            decreases self.repositories.len() - i,
        {
            i += 1;
        }
        proof {
            lemma_position_of(self@.repos, name@, i as int);
        }
        i
    }

    /// Loads one repository, which must be enabled and have an address: it
    /// replaces the configuration of the repository of its name, or it is
    /// added at the end.
    pub fn insert(&mut self, repo: RepositoryMetadata)
        requires
            usable(repo@),
        ensures
            final(self)@ == (CatalogView { repos: inserted(old(self)@.repos, repo@), ..old(self)@ }),
            old(self)@.in_order() ==> final(self)@.in_order(),
    {
        proof {
            if self@.in_order() {
                lemma_inserted_usable(self@.repos, repo@);
            }
        }
        let i = self.find(repo.name.as_str());
        if i < self.repositories.len() {
            self.repositories[i].metadata = repo;
            assert(self@.repos =~= inserted(old(self)@.repos, repo@));
        } else {
            self.repositories.push(RepoEntry { metadata: repo, cache: None });
            assert(self@.repos =~= inserted(old(self)@.repos, repo@));
        }
    }

    /// Reads one repository-definition file with this catalog's default for
    /// the signature check.
    pub fn parse_repo_file(&self, content: &str) -> (r: Result<Vec<RepositoryMetadata>, RatpmError>)
        ensures
            match r {
                Ok(repos) => parsed(content@, self@.gpgcheck) == Ok::<
                    Seq<RepositoryMetadataView>,
                    Seq<char>,
                >(metadata_views(repos@)),
                Err(e) => parsed(content@, self@.gpgcheck) matches Err(msg) && e@
                    == ErrorView::ConfigError(msg),
            },
    {
        parse_repo_text(content, self.gpgcheck)
    }

    /// Builds the repository that the section `name` with the pairs `data`
    /// declares, with this catalog's default for the signature check.
    pub fn build_repository(&self, name: String, data: Vec<(String, String)>) -> (r: Result<
        Option<RepositoryMetadata>,
        RatpmError,
    >)
        ensures
            match r {
                Ok(Some(repo)) => built(
                    SectionView { name: name@, entries: entry_views(data@) },
                    self@.gpgcheck,
                ) == Ok::<Option<RepositoryMetadataView>, Seq<char>>(Some(repo@)),
                Ok(None) => built(
                    SectionView { name: name@, entries: entry_views(data@) },
                    self@.gpgcheck,
                ) == Ok::<Option<RepositoryMetadataView>, Seq<char>>(None),
                Err(e) => built(
                    SectionView { name: name@, entries: entry_views(data@) },
                    self@.gpgcheck,
                ) matches Err(msg) && e@ == ErrorView::ConfigError(msg),
            },
    {
        build_section(name, &data, self.gpgcheck)
    }

    /// Loads the repository-definition files whose contents are `files`, in
    /// turn. A file that is refused is skipped; the refusals are returned in
    /// file order.
    pub fn load_repositories(&mut self, files: &Vec<String>) -> (failures: Vec<RatpmError>)
        ensures
            final(self)@ == (CatalogView {
                repos: loaded(old(self)@.repos, string_texts(files@), old(self)@.gpgcheck),
                ..old(self)@
            }),
            error_views(failures@) == load_failures(string_texts(files@), old(self)@.gpgcheck),
            names_distinct(old(self)@.repos) ==> names_distinct(final(self)@.repos),
            old(self)@.in_order() ==> final(self)@.in_order(),
    {
        let ghost all = string_texts(files@);
        let ghost start = self@;
        let mut failures: Vec<RatpmError> = Vec::new();
        let mut i: usize = 0;
        assert(error_views(failures@) =~= load_failures(all.take(0), start.gpgcheck));
        while i < files.len()
            invariant
                i <= files.len(),
                all == string_texts(files@),
                self@ == (CatalogView {
                    repos: loaded(start.repos, all.take(i as int), start.gpgcheck),
                    ..start
                }),
                error_views(failures@) == load_failures(all.take(i as int), start.gpgcheck),
            decreases files.len() - i,
        {
            proof {
                assert(all.take(i + 1).drop_last() == all.take(i as int));
                assert(all.take(i + 1).last() == files@[i as int]@);
            }
            let ghost before = self@.repos;
            match self.parse_repo_file(files[i].as_str()) {
                Ok(repos) => {
                    let ghost ms = metadata_views(repos@);
                    let mut k: usize = 0;
                    proof {
                        assert(ms.take(0) =~= Seq::empty());
                        let content = files@[i as int]@;
                        lemma_parsed_usable(sections_of(content), start.gpgcheck);
                        assert(parsed(content, start.gpgcheck) == Ok::<
                            Seq<RepositoryMetadataView>,
                            Seq<char>,
                        >(ms));
                        assert(repositories_of(sections_of(content), start.gpgcheck) == Ok::<
                            Seq<RepositoryMetadataView>,
                            Seq<char>,
                        >(ms));
                        assert forall|j: int| 0 <= j < ms.len() implies usable(#[trigger] ms[j]) by {
                            let found = repositories_of(sections_of(content), start.gpgcheck)->Ok_0;
                            assert(usable(found[j]));
                        }
                    }
                    while k < repos.len()
                        invariant
                            k <= repos.len(),
                            ms == metadata_views(repos@),
                            forall|j: int| 0 <= j < ms.len() ==> usable(#[trigger] ms[j]),
                            self@ == (CatalogView {
                                repos: inserted_all(before, ms.take(k as int)),
                                ..start
                            }),
                        decreases repos.len() - k,
                    {
                        proof {
                            assert(ms.take(k + 1).drop_last() == ms.take(k as int));
                            assert(ms.take(k + 1).last() == repos@[k as int]@);
                            assert(usable(ms[k as int]));
                        }
                        self.insert(repos[k].clone());
                        k += 1;
                    }
                    proof {
                        assert(ms.take(repos.len() as int) == ms);
                    }
                },
                Err(e) => {
                    let ghost before_failures = error_views(failures@);
                    failures.push(e);
                    assert(error_views(failures@) =~= before_failures.push(e@));
                },
            }
            i += 1;
        }
        proof {
            assert(all.take(files.len() as int) == all);
            if names_distinct(start.repos) {
                lemma_loaded_distinct(start.repos, all, start.gpgcheck);
            }
            if all_usable(start.repos) {
                lemma_loaded_usable(start.repos, all, start.gpgcheck);
            }
        }
        failures
    }

    /// Makes `packages` the cached metadata of the repository called `repo`.
    /// Returns whether the catalog has such a repository; if not, nothing
    /// changes.
    pub fn load_cache(&mut self, repo: &str, packages: Vec<PackageInfo>) -> (known: bool)
        ensures
            known == (position_of(old(self)@.repos, repo@) < old(self)@.repos.len()),
            final(self)@ == (CatalogView {
                repos: with_cache(old(self)@.repos, repo@, info_views(packages@)),
                ..old(self)@
            }),
            old(self)@.in_order() ==> final(self)@.in_order(),
    {
        proof {
            if self@.in_order() {
                lemma_kept_usable(self@.repos, repo@, info_views(packages@), 0);
            }
        }
        let i = self.find(repo);
        if i < self.repositories.len() {
            self.repositories[i].cache = Some(packages);
            assert(self@.repos =~= with_cache(old(self)@.repos, repo@, info_views(packages@)));
            true
        } else {
            false
        }
    }

    fn collect(&self, filter: &Option<Vec<char>>) -> (r: Vec<Package>)
        ensures
            package_views(r@) == catalog_selection(
                self@.repos,
                match filter {
                    Some(q) => Some(q@),
                    None => None,
                },
            ),
    {
        let ghost all = self@.repos;
        let ghost f: Option<Seq<char>> = match filter {
            Some(q) => Some(q@),
            None => None,
        };
        let mut out: Vec<Package> = Vec::new();
        let mut i: usize = 0;
        assert(package_views(out@) =~= catalog_selection(all.take(0), f));
        while i < self.repositories.len()
            invariant
                i <= self.repositories.len(),
                all == self@.repos,
                f == (match filter {
                    Some(q) => Some(q@),
                    None => None,
                }),
                package_views(out@) == catalog_selection(all.take(i as int), f),
            decreases self.repositories.len() - i,
        {
            proof {
                assert(all.take(i + 1).drop_last() == all.take(i as int));
                assert(all.take(i + 1).last() == self.repositories@[i as int]@);
            }
            let ghost before = package_views(out@);
            match &self.repositories[i].cache {
                Some(cache) => {
                    let mut found = select_from_cache(cache, filter);
                    let ghost added = package_views(found@);
                    out.append(&mut found);
                    assert(package_views(out@) =~= before + added);
                },
                None => {
                    assert(before + Seq::<PackageView>::empty() =~= before);
                },
            }
            i += 1;
        }
        assert(all.take(self.repositories.len() as int) == all);
        out
    }

    /// The packages whose name or summary holds `query`, compared without
    /// regard to case: sorted by name, version and architecture, one entry
    /// for each such triple.
    pub fn search(&self, query: &str) -> (r: Result<Vec<Package>, RatpmError>)
        ensures
            r matches Ok(found) && is_listing_of(
                true,
                package_views(found@),
                catalog_selection(self@.repos, Some(lowercased(query@))),
            ),
    {
        let lower = query.to_lowercase();
        let filter = Some(chars_of(lower.as_str()));
        Ok(sorted_unique(true, self.collect(&filter)))
    }

    /// The packages of one repository's cached metadata whose lowercase name
    /// or summary holds `query`, in cache order.
    pub fn search_cache(&self, cache: &Vec<PackageInfo>, query: &str) -> (r: Result<
        Vec<Package>,
        RatpmError,
    >)
        ensures
            r matches Ok(found) && package_views(found@) == cache_selection(
                info_views(cache@),
                Some(query@),
            ),
    {
        let filter = Some(chars_of(query));
        Ok(select_from_cache(cache, &filter))
    }

    /// Every package on offer: sorted by name, version and architecture, one
    /// entry for each such triple.
    pub fn list_available(&self) -> (r: Result<Vec<Package>, RatpmError>)
        ensures
            r matches Ok(found) && is_listing_of(
                true,
                package_views(found@),
                catalog_selection(self@.repos, None),
            ),
    {
        let filter: Option<Vec<char>> = None;
        Ok(sorted_unique(true, self.collect(&filter)))
    }

    /// The packages of one repository's cached metadata, in cache order.
    pub fn list_cache_packages(&self, cache: &Vec<PackageInfo>) -> (r: Result<
        Vec<Package>,
        RatpmError,
    >)
        ensures
            r matches Ok(found) && package_views(found@) == cache_selection(
                info_views(cache@),
                None,
            ),
    {
        let filter: Option<Vec<char>> = None;
        Ok(select_from_cache(cache, &filter))
    }

    /// The first package of `cache` called `package`, with `repo_name` as
    /// its origin.
    pub fn get_info_from_cache(
        &self,
        cache: &Vec<PackageInfo>,
        package: &str,
        repo_name: &str,
    ) -> (r: Result<Option<PackageInfo>, RatpmError>)
        ensures
            match r {
                Ok(Some(info)) => find_in_cache(info_views(cache@), package@) matches Some(p)
                    && info@ == (PackageInfoView { repo: repo_name@, ..p }),
                Ok(None) => find_in_cache(info_views(cache@), package@) is None,
                Err(_) => false,
            },
    {
        let wanted = String::from_str(package);
        let ghost all = info_views(cache@);
        let mut i: usize = 0;
        assert(all.skip(0) == all);
        while i < cache.len()
            invariant
                i <= cache.len(),
                all == info_views(cache@),
                wanted@ == package@,
                find_in_cache(all.skip(i as int), package@) == find_in_cache(all, package@),
            decreases cache.len() - i,
        {
            proof {
                assert(all.skip(i as int)[0] == cache@[i as int]@);
                assert(all.skip(i as int).skip(1) == all.skip(i + 1));
            }
            if cache[i].name == wanted {
                let mut info = cache[i].clone();
                info.repo = String::from_str(repo_name);
                return Ok(Some(info));
            }
            i += 1;
        }
        proof {
            assert(all.skip(cache.len() as int).len() == 0);
        }
        Ok(None)
    }

    /// The package called `package` as the first repository that has it
    /// offers it: under that name, with that repository, whose metadata is
    /// cached, as its origin. The catalog is not changed.
    pub fn get_package_info(&self, package: &str) -> (r: Result<PackageInfo, RatpmError>)
        ensures
            match r {
                Ok(info) => {
                    &&& find_package(self@.repos, package@) == Some(info@)
                    &&& info@.name == package@
                    &&& served_by(self@, info@)
                },
                Err(e) => find_package(self@.repos, package@) is None && e@
                    == ErrorView::PackageNotFound(package@),
            },
    {
        let ghost all = self@.repos;
        let mut i: usize = 0;
        assert(all.skip(0) == all);
        while i < self.repositories.len()
            invariant
                i <= self.repositories.len(),
                all == self@.repos,
                find_package(all.skip(i as int), package@) == find_package(all, package@),
            decreases self.repositories.len() - i,
        {
            proof {
                assert(all.skip(i as int)[0] == self.repositories@[i as int]@);
                assert(all.skip(i as int).skip(1) == all.skip(i + 1));
            }
            let entry = &self.repositories[i];
            match &entry.cache {
                Some(cache) => {
                    match self.get_info_from_cache(cache, package, entry.metadata.name.as_str()) {
                        Ok(Some(info)) => {
                            proof {
                                lemma_found(all, package@);
                                assert(find_package(all, package@) == Some(info@));
                                let k = choose|k: int| #[trigger] offered_at(all, k, info@);
                                assert(offered_at(self@.repos, k, info@) && (self@.in_order()
                                    ==> self@.repos[k].metadata.enabled));
                                assert(served_by(self@, info@));
                            }
                            return Ok(info);
                        },
                        _ => {},
                    }
                },
                None => {},
            }
            i += 1;
        }
        proof {
            assert(all.skip(self.repositories.len() as int).len() == 0);
        }
        Err(RatpmError::PackageNotFound(String::from_str(package)))
    }

    /// Stamps every repository as refreshed at `now` and gives each one that
    /// had no cached metadata an empty cache.
    pub fn stamp_refresh(&mut self, now: i64)
        ensures
            final(self)@ == (CatalogView { repos: refreshed(old(self)@.repos, now), ..old(self)@ }),
            old(self)@.in_order() ==> final(self)@.in_order(),
    {
        proof {
            if self@.in_order() {
                lemma_kept_usable(self@.repos, Seq::empty(), Seq::empty(), now);
            }
        }
        let ghost start = self@;
        let mut i: usize = 0;
        while i < self.repositories.len()
            invariant
                i <= self.repositories.len(),
                self@.repo_dir == start.repo_dir,
                self@.cache_dir == start.cache_dir,
                self@.gpgcheck == start.gpgcheck,
                self@.requirements == start.requirements,
                self@.repos.len() == start.repos.len(),
                forall|j: int| 0 <= j < i ==> self@.repos[j] == refreshed_entry(start.repos[j], now),
                forall|j: int| i <= j < self@.repos.len() ==> self@.repos[j] == start.repos[j],
            decreases self.repositories.len() - i,
        {
            let ghost before = self@.repos;
            self.repositories[i].metadata.last_refresh = Some(now);
            if self.repositories[i].cache.is_none() {
                let empty: Vec<PackageInfo> = Vec::new();
                assert(info_views(empty@) =~= Seq::empty());
                self.repositories[i].cache = Some(empty);
            }
            proof {
                let after = self@.repos;
                assert(after[i as int] == refreshed_entry(before[i as int], now));
                assert forall|j: int| 0 <= j < i + 1 implies after[j] == refreshed_entry(
                    start.repos[j],
                    now,
                ) by {
                    if j < i {
                        assert(after[j] == before[j]);
                    }
                }
                assert forall|j: int| i + 1 <= j < after.len() implies after[j] == start.repos[j] by {
                    assert(after[j] == before[j]);
                }
            }
            i += 1;
        }
        assert(self@.repos =~= refreshed(start.repos, now));
    }

    /// Refreshes every repository at the time `now`, if the clock gave one:
    /// each is stamped and has a cache afterwards, empty if it had none.
    /// Without a time nothing changes and the refresh fails.
    pub fn refresh_at(&mut self, now: Option<i64>) -> (r: Result<(), RatpmError>)
        ensures
            refresh_result(old(self)@, now, final(self)@, outcome_view(r)),
            old(self)@.in_order() ==> final(self)@.in_order(),
    {
        match now {
            Some(time) => {
                self.stamp_refresh(time);
                Ok(())
            },
            None => Err(RatpmError::BackendError(String::from_str("System clock is out of range"))),
        }
    }

    /// Refreshes every repository at the current time: each is stamped and
    /// has a cache afterwards, empty if it had none. When the system clock
    /// gives no time, nothing changes and the refresh fails.
    pub fn refresh_metadata(&mut self) -> (r: Result<(), RatpmError>)
        ensures
            exists|now: Option<i64>| #[trigger]
                refresh_result(old(self)@, now, final(self)@, outcome_view(r)),
            old(self)@.in_order() ==> final(self)@.in_order(),
    {
        let now = current_timestamp();
        let r = self.refresh_at(now);
        assert(refresh_result(old(self)@, now, self@, outcome_view(r)));
        r
    }

    /// Synchronises every repository, which is to refresh its metadata.
    pub fn sync_all(&mut self) -> (r: Result<(), RatpmError>)
        ensures
            exists|now: Option<i64>| #[trigger]
                refresh_result(old(self)@, now, final(self)@, outcome_view(r)),
            old(self)@.in_order() ==> final(self)@.in_order(),
    {
        self.refresh_metadata()
    }

    /// One warning for each enabled repository without cached metadata, in
    /// catalog order.
    pub fn check_health(&self) -> (r: Result<Vec<DiagnosticIssue>, RatpmError>)
        ensures
            r matches Ok(issues) && issue_views(issues@) == health_issues(self@.repos),
    {
        let ghost all = self@.repos;
        let mut issues: Vec<DiagnosticIssue> = Vec::new();
        let mut i: usize = 0;
        assert(issue_views(issues@) =~= health_issues(all.take(0)));
        while i < self.repositories.len()
            invariant
                i <= self.repositories.len(),
                all == self@.repos,
                issue_views(issues@) == health_issues(all.take(i as int)),
            decreases self.repositories.len() - i,
        {
            proof {
                assert(all.take(i + 1).drop_last() == all.take(i as int));
                assert(all.take(i + 1).last() == self.repositories@[i as int]@);
            }
            let entry = &self.repositories[i];
            if entry.metadata.enabled && entry.cache.is_none() {
                let mut message = String::from_str("Repository '");
                message.append(entry.metadata.name.as_str());
                message.append("' has no cached metadata");
                let issue = DiagnosticIssue {
                    severity: String::from_str("warning"),
                    message,
                    suggestion: String::from_str(
                        "Run 'ratpm update' to refresh repository metadata",
                    ),
                };
                let ghost before = issue_views(issues@);
                issues.push(issue);
                assert(issue_views(issues@) =~= before.push(issue@));
            }
            i += 1;
        }
        assert(all.take(self.repositories.len() as int) == all);
        Ok(issues)
    }

    /// The configuration of the repository called `name`, if the catalog has
    /// one. In a catalog built through this interface it is enabled and has
    /// an address.
    pub fn get_repository(&self, name: &str) -> (r: Option<&RepositoryMetadata>)
        ensures
            match r {
                Some(m) => {
                    &&& position_of(self@.repos, name@) < self@.repos.len()
                    &&& m@ == self@.repos[position_of(self@.repos, name@) as int].metadata
                    &&& m@.name == name@
                    &&& self@.in_order() ==> m@.enabled && m@.baseurl.len() > 0
                },
                None => {
                    &&& position_of(self@.repos, name@) == self@.repos.len()
                    &&& forall|i: int|
                        0 <= i < self@.repos.len() ==> (#[trigger] self@.repos[i]).metadata.name
                            != name@
                },
            },
    {
        proof {
            lemma_position_bounds(self@.repos, name@);
        }
        let i = self.find(name);
        if i < self.repositories.len() {
            Some(&self.repositories[i].metadata)
        } else {
            None
        }
    }
}

} // verus!
