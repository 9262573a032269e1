//! Plain records exchanged between the catalog, the installed database, the
//! resolver and the executor.

use vstd::prelude::*;
use vstd::std_specs::cmp::PartialEqSpec;
use vstd::string::StringExecFns;
use crate::text::string_texts;

verus! {

/// The origin of every installed package.
pub open spec fn system_origin() -> Seq<char> {
    "@System"@
}

/// One entry of a package listing.
#[derive(Debug)]
pub struct Package {
    pub name: String,
    pub version: String,
    pub arch: String,
    pub summary: String,
}

/// The mathematical content of a [`Package`].
pub struct PackageView {
    pub name: Seq<char>,
    pub version: Seq<char>,
    pub arch: Seq<char>,
    pub summary: Seq<char>,
}

impl View for Package {
    type V = PackageView;

    open spec fn view(&self) -> PackageView {
        PackageView {
            name: self.name@,
            version: self.version@,
            arch: self.arch@,
            summary: self.summary@,
        }
    }
}

impl Clone for Package {
    fn clone(&self) -> (r: Self)
        ensures
            r@ == self@,
    {
        Package {
            name: self.name.clone(),
            version: self.version.clone(),
            arch: self.arch.clone(),
            summary: self.summary.clone(),
        }
    }
}

/// Everything known about one package version in one origin.
#[derive(Debug)]
pub struct PackageInfo {
    pub name: String,
    pub version: String,
    pub arch: String,
    pub repo: String,
    pub size: u64,
    pub summary: String,
    pub description: String,
    pub url: String,
    pub license: String,
}

/// The mathematical content of a [`PackageInfo`].
pub struct PackageInfoView {
    pub name: Seq<char>,
    pub version: Seq<char>,
    pub arch: Seq<char>,
    pub repo: Seq<char>,
    pub size: u64,
    pub summary: Seq<char>,
    pub description: Seq<char>,
    pub url: Seq<char>,
    pub license: Seq<char>,
}

impl PackageInfoView {
    /// The identity of the described package.
    pub open spec fn spec(self) -> PackageSpecView {
        PackageSpecView {
            name: self.name,
            version: self.version,
            arch: self.arch,
            repo: self.repo,
        }
    }

    /// The listing entry of the described package.
    pub open spec fn listing(self) -> PackageView {
        PackageView {
            name: self.name,
            version: self.version,
            arch: self.arch,
            summary: self.summary,
        }
    }
}

impl View for PackageInfo {
    type V = PackageInfoView;

    open spec fn view(&self) -> PackageInfoView {
        PackageInfoView {
            name: self.name@,
            version: self.version@,
            arch: self.arch@,
            repo: self.repo@,
            size: self.size,
            summary: self.summary@,
            description: self.description@,
            url: self.url@,
            license: self.license@,
        }
    }
}

impl Clone for PackageInfo {
    fn clone(&self) -> (r: Self)
        ensures
            r@ == self@,
    {
        PackageInfo {
            name: self.name.clone(),
            version: self.version.clone(),
            arch: self.arch.clone(),
            repo: self.repo.clone(),
            size: self.size,
            summary: self.summary.clone(),
            description: self.description.clone(),
            url: self.url.clone(),
            license: self.license.clone(),
        }
    }
}

/// The identity of one package version in one origin.
#[derive(Debug, Eq, Hash)]
pub struct PackageSpec {
    pub name: String,
    pub version: String,
    pub arch: String,
    pub repo: String,
}

/// The mathematical content of a [`PackageSpec`].
pub struct PackageSpecView {
    pub name: Seq<char>,
    pub version: Seq<char>,
    pub arch: Seq<char>,
    pub repo: Seq<char>,
}

impl View for PackageSpec {
    type V = PackageSpecView;

    open spec fn view(&self) -> PackageSpecView {
        PackageSpecView {
            name: self.name@,
            version: self.version@,
            arch: self.arch@,
            repo: self.repo@,
        }
    }
}

impl Clone for PackageSpec {
    fn clone(&self) -> (r: Self)
        ensures
            r@ == self@,
    {
        PackageSpec {
            name: self.name.clone(),
            version: self.version.clone(),
            arch: self.arch.clone(),
            repo: self.repo.clone(),
        }
    }
}

impl PartialEq for PackageSpec {
    fn eq(&self, other: &Self) -> (r: bool) {
        self.name == other.name && self.version == other.version && self.arch == other.arch
            && self.repo == other.repo
    }
}

impl vstd::std_specs::cmp::PartialEqSpecImpl for PackageSpec {
    open spec fn obeys_eq_spec() -> bool {
        true
    }

    open spec fn eq_spec(&self, other: &Self) -> bool {
        self@ == other@
    }
}

/// The canonical text of a package identity: name, `-`, version, `.`, architecture.
pub open spec fn nevra_of(p: PackageSpecView) -> Seq<char> {
    p.name.push('-') + p.version.push('.') + p.arch
}

impl PackageSpec {
    /// The identity made of the four given parts.
    pub fn new(name: String, version: String, arch: String, repo: String) -> (r: Self)
        ensures
            r@ == (PackageSpecView { name: name@, version: version@, arch: arch@, repo: repo@ }),
            r.name == name,
            r.version == version,
            r.arch == arch,
            r.repo == repo,
    {
        Self { name, version, arch, repo }
    }

    /// The canonical text `<name>-<version>.<arch>`; the origin is not part of it.
    pub fn to_nevra(&self) -> (r: String)
        ensures
            r@ == nevra_of(self@),
    {
        let mut r = self.name.clone();
        r.push('-');
        r.append(self.version.as_str());
        r.push('.');
        r.append(self.arch.as_str());
        r
    }
}

/// Two package identities are equal exactly when their names, versions,
/// architectures and origins agree.
pub proof fn spec_equality_is_fieldwise(a: PackageSpec, b: PackageSpec)
    ensures
        a.eq_spec(&b) <==> (a.name@ == b.name@ && a.version@ == b.version@ && a.arch@ == b.arch@
            && a.repo@ == b.repo@),
{
}

/// The canonical text is the name, a hyphen, the version, a dot and the
/// architecture, in that order.
pub proof fn nevra_is_name_version_arch(p: PackageSpecView)
    ensures
        nevra_of(p) == p.name + seq!['-'] + p.version + seq!['.'] + p.arch,
{
    assert(p.name.push('-') == p.name + seq!['-']);
    assert(p.version.push('.') == p.version + seq!['.']);
    assert(p.name.push('-') + p.version.push('.') + p.arch == p.name + seq!['-'] + p.version
        + seq!['.'] + p.arch);
}

/// One finding of the health check.
#[derive(Debug)]
pub struct DiagnosticIssue {
    pub severity: String,
    pub message: String,
    pub suggestion: String,
}

/// The mathematical content of a [`DiagnosticIssue`].
pub struct DiagnosticIssueView {
    pub severity: Seq<char>,
    pub message: Seq<char>,
    pub suggestion: Seq<char>,
}

impl View for DiagnosticIssue {
    type V = DiagnosticIssueView;

    open spec fn view(&self) -> DiagnosticIssueView {
        DiagnosticIssueView {
            severity: self.severity@,
            message: self.message@,
            suggestion: self.suggestion@,
        }
    }
}

impl Clone for DiagnosticIssue {
    fn clone(&self) -> (r: Self)
        ensures
            r@ == self@,
    {
        DiagnosticIssue {
            severity: self.severity.clone(),
            message: self.message.clone(),
            suggestion: self.suggestion.clone(),
        }
    }
}

/// Copies a list of strings.
pub fn clone_strings(v: &Vec<String>) -> (r: Vec<String>)
    ensures
        string_texts(r@) == string_texts(v@),
        r.len() == v.len(),
{
    let mut r: Vec<String> = Vec::new();
    let mut i: usize = 0;
    while i < v.len()
        invariant
            i <= v.len(),
            r.len() == i,
            forall|j: int| 0 <= j < i ==> r@[j]@ == v@[j]@,
        decreases v.len() - i,
    {
        r.push(v[i].clone());
        i += 1;
    }
    assert(string_texts(r@) =~= string_texts(v@));
    r
}

/// One entry of the installed database's transaction log.
#[derive(Debug)]
pub struct HistoryEntry {
    pub id: i64,
    pub timestamp: String,
    pub command: String,
    pub actions: Vec<String>,
}

/// The mathematical content of a [`HistoryEntry`].
pub struct HistoryEntryView {
    pub id: i64,
    pub timestamp: Seq<char>,
    pub command: Seq<char>,
    pub actions: Seq<Seq<char>>,
}

impl View for HistoryEntry {
    type V = HistoryEntryView;

    open spec fn view(&self) -> HistoryEntryView {
        HistoryEntryView {
            id: self.id,
            timestamp: self.timestamp@,
            command: self.command@,
            actions: string_texts(self.actions@),
        }
    }
}

impl Clone for HistoryEntry {
    fn clone(&self) -> (r: Self)
        ensures
            r@ == self@,
    {
        HistoryEntry {
            id: self.id,
            timestamp: self.timestamp.clone(),
            command: self.command.clone(),
            actions: clone_strings(&self.actions),
        }
    }
}

/// The configuration of one repository.
#[derive(Debug)]
pub struct RepositoryMetadata {
    pub name: String,
    pub baseurl: String,
    pub enabled: bool,
    pub gpgcheck: bool,
    pub gpgkey: Vec<String>,
    pub last_refresh: Option<i64>,
}

/// The mathematical content of a [`RepositoryMetadata`].
pub struct RepositoryMetadataView {
    pub name: Seq<char>,
    pub baseurl: Seq<char>,
    pub enabled: bool,
    pub gpgcheck: bool,
    pub gpgkey: Seq<Seq<char>>,
    pub last_refresh: Option<i64>,
}

impl View for RepositoryMetadata {
    type V = RepositoryMetadataView;

    open spec fn view(&self) -> RepositoryMetadataView {
        RepositoryMetadataView {
            name: self.name@,
            baseurl: self.baseurl@,
            enabled: self.enabled,
            gpgcheck: self.gpgcheck,
            gpgkey: string_texts(self.gpgkey@),
            last_refresh: self.last_refresh,
        }
    }
}

impl Clone for RepositoryMetadata {
    fn clone(&self) -> (r: Self)
        ensures
            r@ == self@,
    {
        RepositoryMetadata {
            name: self.name.clone(),
            baseurl: self.baseurl.clone(),
            enabled: self.enabled,
            gpgcheck: self.gpgcheck,
            gpgkey: clone_strings(&self.gpgkey),
            last_refresh: self.last_refresh,
        }
    }
}

/// One artifact to fetch: what it is, where it comes from and how to check it.
#[derive(Debug)]
pub struct PackageDownload {
    pub spec: PackageSpec,
    pub url: String,
    pub size: u64,
    pub checksum: String,
    pub checksum_type: String,
}

/// The mathematical content of a [`PackageDownload`].
pub struct PackageDownloadView {
    pub spec: PackageSpecView,
    pub url: Seq<char>,
    pub size: u64,
    pub checksum: Seq<char>,
    pub checksum_type: Seq<char>,
}

impl View for PackageDownload {
    type V = PackageDownloadView;

    open spec fn view(&self) -> PackageDownloadView {
        PackageDownloadView {
            spec: self.spec@,
            url: self.url@,
            size: self.size,
            checksum: self.checksum@,
            checksum_type: self.checksum_type@,
        }
    }
}

impl Clone for PackageDownload {
    fn clone(&self) -> (r: Self)
        ensures
            r@ == self@,
    {
        PackageDownload {
            spec: self.spec.clone(),
            url: self.url.clone(),
            size: self.size,
            checksum: self.checksum.clone(),
            checksum_type: self.checksum_type.clone(),
        }
    }
}

} // verus!
