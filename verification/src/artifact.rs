//! The artifact entity and its two workhorses: the extraction orchestrator,
//! which recovers a tool's executable bytes from a downloaded payload and
//! validates the binary's target operating system, and the selection
//! algorithm, which ranks a batch of candidate assets by compatibility with
//! the running system.
use vstd::prelude::*;

use crate::archive::gzip_decoded;
use crate::archive::gzip_decompress;
use crate::archive::zip_entry;
use crate::archive::zip_find_member;
use crate::chars::chars_string;
use crate::chars::eq_chars;
use crate::chars::lossy_text;
use crate::chars::lower_seq;
use crate::chars::str_chars;
use crate::chars::to_lower;
use crate::chars::trim_chars;
use crate::chars::trim_seq;
use crate::chars::utf8_lossy;
use crate::descriptor::compatible_spec;
use crate::descriptor::detect_spec;
use crate::descriptor::os_of_binary;
use crate::descriptor::rank_spec;
use crate::descriptor::Descriptor;
use crate::descriptor::Os;
use crate::format::format_of_name;
use crate::format::ArtifactFormat;
use crate::tarball::tar_find_member;
use crate::tarball::tar_lookup;
use vstd::slice::slice_to_vec;
use vstd::utf8::encode_utf8;

verus! {

/// The origin of a release asset. GitHub is the only provider today; the
/// enumeration is closed but meant to grow.
#[derive(Clone, Copy, Debug, PartialEq, Eq, Hash, Structural)]
pub enum ArtifactProvider {
    GitHub,
}

/// The canonical identifier token of a provider.
pub open spec fn provider_token(p: ArtifactProvider) -> Seq<char> {
    match p {
        ArtifactProvider::GitHub => seq!['g', 'i', 't', 'h', 'u', 'b'],
    }
}

/// The human-readable name of a provider.
pub open spec fn provider_display(p: ArtifactProvider) -> Seq<char> {
    match p {
        ArtifactProvider::GitHub => seq!['G', 'i', 't', 'H', 'u', 'b'],
    }
}

/// The message reported for an unrecognized provider token.
pub open spec fn unknown_provider_msg(t: Seq<char>) -> Seq<char> {
    seq![
        'u',
        'n',
        'k',
        'n',
        'o',
        'w',
        'n',
        ' ',
        'a',
        'r',
        't',
        'i',
        'f',
        'a',
        'c',
        't',
        ' ',
        'p',
        'r',
        'o',
        'v',
        'i',
        'd',
        'e',
        'r',
        ' ',
        '\'',
    ] + t + seq!['\'']
}

impl ArtifactProvider {
    /// The provider's canonical identifier token.
    pub fn as_str(self) -> (r: &'static str)
        ensures
            r@ == provider_token(self),
    {
        match self {
            ArtifactProvider::GitHub => {
                let s = "github";
                proof {
                    reveal_strlit("github");
                    assert(s@ =~= provider_token(ArtifactProvider::GitHub));
                }
                s
            },
        }
    }

    /// The provider's human-readable display name.
    pub fn display_name(self) -> (r: &'static str)
        ensures
            r@ == provider_display(self),
    {
        match self {
            ArtifactProvider::GitHub => {
                let s = "GitHub";
                proof {
                    reveal_strlit("GitHub");
                    assert(s@ =~= provider_display(ArtifactProvider::GitHub));
                }
                s
            },
        }
    }

    /// Parses a provider token, case-insensitively and ignoring
    /// surrounding whitespace; only `github` is accepted today, and a
    /// rejection message names the unknown token.
    pub fn parse(s: &str) -> (r: Result<ArtifactProvider, String>)
        ensures
            ({
                let t = lower_seq(trim_seq(s@));
                match r {
                    Ok(p) => p == ArtifactProvider::GitHub && t == provider_token(
                        ArtifactProvider::GitHub,
                    ),
                    Err(e) => t != provider_token(ArtifactProvider::GitHub) && e@
                        == unknown_provider_msg(t),
                }
            }),
    {
        let cs = str_chars(s);
        let trimmed = trim_chars(&cs);
        let t = to_lower(&trimmed);
        let github: Vec<char> = vec!['g', 'i', 't', 'h', 'u', 'b'];
        assert(github@ =~= provider_token(ArtifactProvider::GitHub));
        if eq_chars(&t, &github) {
            Ok(ArtifactProvider::GitHub)
        } else {
            let mut msg: Vec<char> = vec![
                'u',
                'n',
                'k',
                'n',
                'o',
                'w',
                'n',
                ' ',
                'a',
                'r',
                't',
                'i',
                'f',
                'a',
                'c',
                't',
                ' ',
                'p',
                'r',
                'o',
                'v',
                'i',
                'd',
                'e',
                'r',
                ' ',
                '\'',
            ];
            let ghost prefix = msg@;
            let mut i: usize = 0;
            while i < t.len()
                invariant
                    i <= t@.len(),
                    msg@ =~= prefix + t@.take(i as int),
                decreases t@.len() - i,
            {
                msg.push(t[i]);
                i += 1;
            }
            msg.push('\'');
            proof {
                assert(t@.take(t@.len() as int) =~= t@);
                assert(msg@ =~= unknown_provider_msg(t@));
            }
            Err(chars_string(&msg))
        }
    }
}

impl core::str::FromStr for ArtifactProvider {
    type Err = String;

    fn from_str(s: &str) -> Result<ArtifactProvider, String> {
        ArtifactProvider::parse(s)
    }
}

impl Default for ArtifactProvider {
    /// The default provider is GitHub.
    fn default() -> (r: Self)
        ensures
            r == ArtifactProvider::GitHub,
    {
        ArtifactProvider::GitHub
    }
}

/// The tool request an artifact would satisfy: the tool's identifier and
/// the version being resolved. Used as a label for extraction lookups and
/// error reports.
#[derive(Debug, PartialEq, Eq)]
pub struct ToolSpec {
    pub name: String,
    pub version: String,
}

impl ToolSpec {
    /// Builds a tool specification from its identifier and version.
    pub fn new(name: String, version: String) -> (r: ToolSpec)
        ensures
            r.name == name,
            r.version == version,
    {
        ToolSpec { name, version }
    }

    /// The tool's identifier.
    pub fn name(&self) -> (r: &String)
        ensures
            r == &self.name,
    {
        &self.name
    }
}

impl Clone for ToolSpec {
    fn clone(&self) -> (r: Self)
        ensures
            r == *self,
    {
        ToolSpec { name: self.name.clone(), version: self.version.clone() }
    }
}

/// One release asset as the release-listing collaborator advertises it:
/// a numeric asset id, the display name, and the download URL.
#[derive(Debug, PartialEq, Eq)]
pub struct Asset {
    pub id: u64,
    pub name: String,
    pub url: String,
}

impl Clone for Asset {
    fn clone(&self) -> (r: Self)
        ensures
            r == *self,
    {
        Asset { id: self.id, name: self.name.clone(), url: self.url.clone() }
    }
}

/// Digit character of a value in 0..=9.
pub open spec fn digit_char(d: int) -> char {
    (((d + 0x30) as u8) as char)
}

/// Decimal digits of a non-negative number, most significant first.
pub open spec fn dec_digits(n: int) -> Seq<char>
    decreases n,
{
    if n < 10 {
        seq![digit_char(n)]
    } else {
        dec_digits(n / 10).push(digit_char(n % 10))
    }
}

/// A character sequence reversed.
pub open spec fn rev_chars(v: Seq<char>) -> Seq<char> {
    Seq::new(v.len(), |j: int| v[v.len() - 1 - j])
}

/// Formats a number in decimal.
pub fn u64_to_dec(x: u64) -> (r: String)
    ensures
        r@ == dec_digits(x as int),
{
    let mut rev_digits: Vec<char> = Vec::new();
    let mut v: u64 = x;
    rev_digits.push((((v % 10) as u8) + 0x30) as char);
    proof {
        assert(rev_chars(rev_digits@) =~= seq![digit_char(x as int % 10)]);
        if x < 10 {
            assert(x as int % 10 == x as int);
        }
    }
    v = v / 10;
    while v > 0
        invariant
            rev_digits@.len() >= 1,
            v > 0 ==> dec_digits(x as int) =~= dec_digits(v as int) + rev_chars(rev_digits@),
            v == 0 ==> dec_digits(x as int) =~= rev_chars(rev_digits@),
        decreases v,
    {
        let ghost old_rev = rev_digits@;
        let d = (((v % 10) as u8) + 0x30) as char;
        rev_digits.push(d);
        proof {
            assert(d == digit_char(v as int % 10));
            assert forall|j: int| 0 <= j < old_rev.len() + 1 implies rev_chars(rev_digits@)[j]
                == (seq![d] + rev_chars(old_rev))[j] by {
                if j > 0 {
                    assert(rev_digits@[old_rev.len() - j] == old_rev[old_rev.len() - j]);
                }
            }
            assert(rev_chars(rev_digits@) =~= seq![d] + rev_chars(old_rev));
            if v >= 10 {
                assert(dec_digits(v as int) == dec_digits(v as int / 10).push(
                    digit_char(v as int % 10),
                ));
                assert(dec_digits(v as int) =~= dec_digits(v as int / 10) + seq![d]);
            } else {
                assert(dec_digits(v as int) =~= seq![digit_char(v as int)]);
                assert(v as int % 10 == v as int);
            }
        }
        v = v / 10;
    }
    let mut out: Vec<char> = Vec::new();
    let mut k: usize = rev_digits.len();
    while k > 0
        invariant
            k <= rev_digits@.len(),
            out@.len() == rev_digits@.len() - k,
            forall|j: int|
                0 <= j < out@.len() ==> out@[j] == rev_digits@[rev_digits@.len() - 1 - j],
        decreases k,
    {
        out.push(rev_digits[k - 1]);
        k -= 1;
    }
    proof {
        assert(out@ =~= rev_chars(rev_digits@));
    }
    chars_string(&out)
}

/// A candidate release asset under evaluation for one tool request.
/// The format, when known, is the one inferred from the asset's name.
#[derive(Debug, PartialEq, Eq)]
pub struct Artifact {
    pub provider: ArtifactProvider,
    pub format: Option<ArtifactFormat>,
    pub id: Option<String>,
    pub url: Option<String>,
    pub name: Option<String>,
    pub tool_spec: ToolSpec,
}

impl Clone for Artifact {
    fn clone(&self) -> (r: Self)
        ensures
            r == *self,
    {
        Artifact {
            provider: self.provider,
            format: self.format,
            id: match &self.id {
                Some(s) => Some(s.clone()),
                None => None,
            },
            url: match &self.url {
                Some(s) => Some(s.clone()),
                None => None,
            },
            name: match &self.name {
                Some(s) => Some(s.clone()),
                None => None,
            },
            tool_spec: self.tool_spec.clone(),
        }
    }
}

/// A failure of `extract_contents`, mirroring what went wrong: the format
/// was never inferred, the archive lacked the member, the binary targets
/// another operating system, or the payload could not be read at all.
#[derive(Debug, PartialEq, Eq)]
pub enum ExtractError {
    UnknownFormat,
    FileMissing { format: ArtifactFormat, file_name: String, archive_name: String },
    OSMismatch { current_os: Os, file_os: Os, file_name: String, archive_name: String },
    Generic { source: String, body: String },
}

/// Spec-level image of an `ExtractError`, with character sequences in
/// place of strings.
pub enum ExtractErrorView {
    UnknownFormat,
    FileMissing { format: ArtifactFormat, file_name: Seq<char>, archive_name: Seq<char> },
    OSMismatch { current_os: Os, file_os: Os, file_name: Seq<char>, archive_name: Seq<char> },
    Generic { source: Seq<char>, body: Seq<char> },
}

impl View for ExtractError {
    type V = ExtractErrorView;

    open spec fn view(&self) -> ExtractErrorView {
        match self {
            ExtractError::UnknownFormat => ExtractErrorView::UnknownFormat,
            ExtractError::FileMissing { format, file_name, archive_name } => {
                ExtractErrorView::FileMissing {
                    format: *format,
                    file_name: file_name@,
                    archive_name: archive_name@,
                }
            },
            ExtractError::OSMismatch { current_os, file_os, file_name, archive_name } => {
                ExtractErrorView::OSMismatch {
                    current_os: *current_os,
                    file_os: *file_os,
                    file_name: file_name@,
                    archive_name: archive_name@,
                }
            },
            ExtractError::Generic { source, body } => {
                ExtractErrorView::Generic { source: source@, body: body@ }
            },
        }
    }
}

/// Spec-level image of an extraction result.
pub open spec fn res_view(r: Result<Vec<u8>, ExtractError>) -> Result<Seq<u8>, ExtractErrorView> {
    match r {
        Ok(v) => Ok(v@),
        Err(e) => Err(e@),
    }
}

/// The diagnostic preview of a payload that could not be read: the whole
/// payload decoded lossily when it is small, else the first 128 bytes
/// decoded lossily, trimmed, and marked with an ellipsis.
pub open spec fn preview_spec(b: Seq<u8>) -> Seq<char> {
    if b.len() > 134 {
        trim_seq(lossy_text(b.take(128))) + seq![' ', '<', '.', '.', '.', '>']
    } else {
        lossy_text(b)
    }
}

/// What searching a payload of format `f` for the member `tool` yields:
/// `None` when the payload is not a well-formed instance of the format,
/// `Some(None)` when the member is absent, `Some(Some(data))` for its
/// bytes. A bare executable is its own single member.
pub open spec fn lookup_spec(f: ArtifactFormat, b: Seq<u8>, tool: Seq<char>) -> Option<
    Option<Seq<u8>>,
> {
    match f {
        ArtifactFormat::Zip => zip_entry(b, tool),
        ArtifactFormat::Tar => tar_lookup(b, encode_utf8(tool), 0),
        ArtifactFormat::TarGz => match gzip_decoded(b) {
            None => None,
            Some(t) => tar_lookup(t, encode_utf8(tool), 0),
        },
        ArtifactFormat::Pe => Some(Some(b)),
        ArtifactFormat::Elf => Some(Some(b)),
    }
}

/// The archive name an error reports: the asset's display name, or empty.
pub open spec fn archive_label(a: Artifact) -> Seq<char> {
    match a.name {
        Some(n) => n@,
        None => Seq::<char>::empty(),
    }
}

/// Everything `extract_contents` promises, for a given ambient operating
/// system: the result is determined by the artifact's format, the payload
/// bytes, the tool's name, and the current system.
pub open spec fn extract_post(
    a: Artifact,
    contents: Seq<u8>,
    current: Option<Os>,
    r: Result<Seq<u8>, ExtractErrorView>,
) -> bool {
    match a.format {
        None => r == Err::<Seq<u8>, ExtractErrorView>(ExtractErrorView::UnknownFormat),
        Some(f) => match lookup_spec(f, contents, a.tool_spec.name@) {
            None => r matches Err(ExtractErrorView::Generic { source: _, body }) && body
                == preview_spec(contents),
            Some(None) => r == Err::<Seq<u8>, ExtractErrorView>(
                ExtractErrorView::FileMissing {
                    format: f,
                    file_name: a.tool_spec.name@,
                    archive_name: archive_label(a),
                },
            ),
            Some(Some(data)) => {
                if current matches Some(c) && os_of_binary(data) matches Some(d) && c != d {
                    r == Err::<Seq<u8>, ExtractErrorView>(
                        ExtractErrorView::OSMismatch {
                            current_os: current->0,
                            file_os: os_of_binary(data)->0,
                            file_name: a.tool_spec.name@,
                            archive_name: archive_label(a),
                        },
                    )
                } else {
                    r == Ok::<Seq<u8>, ExtractErrorView>(data)
                }
            },
        },
    }
}

/// An artifact matches the current system when its display name yields a
/// fingerprint compatible with it.
pub open spec fn compatible_with_current(cur: Descriptor, a: Artifact) -> bool {
    match a.name {
        Some(n) => match detect_spec(n@) {
            Some(d) => compatible_spec(cur, d),
            None => false,
        },
        None => false,
    }
}

/// Preference rank of an artifact against the current system (3 where no
/// fingerprint can be derived at all).
pub open spec fn artifact_rank(cur: Descriptor, a: Artifact) -> int {
    match a.name {
        Some(n) => match detect_spec(n@) {
            Some(d) => rank_spec(cur, d),
            None => 3,
        },
        None => 3,
    }
}

/// The compatible artifacts of preference rank `k`.
pub open spec fn rank_pred(cur: Descriptor, k: int) -> spec_fn(Artifact) -> bool {
    |a: Artifact| compatible_with_current(cur, a) && artifact_rank(cur, a) == k
}

/// The elements of `s` satisfying `pred`, in order.
pub open spec fn kept(pred: spec_fn(Artifact) -> bool, s: Seq<Artifact>) -> Seq<Artifact>
    decreases s.len(),
{
    if s.len() == 0 {
        Seq::<Artifact>::empty()
    } else {
        let rest = kept(pred, s.drop_last());
        if pred(s.last()) {
            rest.push(s.last())
        } else {
            rest
        }
    }
}

/// What the selection algorithm returns: the system-compatible artifacts
/// and none other, exact-architecture matches first, then known but
/// inexact architectures, then unknown ones; input order is kept within
/// each rank.
pub open spec fn selected_spec(cur: Descriptor, s: Seq<Artifact>) -> Seq<Artifact> {
    kept(rank_pred(cur, 0), s) + kept(rank_pred(cur, 1), s) + kept(rank_pred(cur, 2), s)
}

/// An artifact whose fingerprint shares the current system's operating
/// system, whatever its architecture.
pub open spec fn os_pred(cur: Descriptor) -> spec_fn(Artifact) -> bool {
    |a: Artifact|
        match a.name {
            Some(n) => match detect_spec(n@) {
                Some(d) => d.os == cur.os,
                None => false,
            },
            None => false,
        }
}

/// What the fallback selection returns: the unique artifact matching the
/// current operating system, and nothing when there is none or when the
/// choice would be ambiguous.
pub open spec fn fallback_post(cur: Descriptor, s: Seq<Artifact>, r: Option<Artifact>) -> bool {
    let m = kept(os_pred(cur), s);
    if m.len() == 1 {
        r matches Some(a) && a == m[0]
    } else {
        r is None
    }
}

/// Collects the artifacts satisfying the rank predicate `k`, in order.
fn select_rank(current: &Descriptor, artifacts: &Vec<Artifact>, k: u8) -> (r: Vec<Artifact>)
    ensures
        r@ == kept(rank_pred(*current, k as int), artifacts@),
{
    let mut out: Vec<Artifact> = Vec::new();
    let mut i: usize = 0;
    while i < artifacts.len()
        invariant
            i <= artifacts@.len(),
            out@ =~= kept(rank_pred(*current, k as int), artifacts@.take(i as int)),
        decreases artifacts@.len() - i,
    {
        let a = &artifacts[i];
        let keep: bool = match &a.name {
            Some(n) => match Descriptor::detect(n.as_str()) {
                Some(d) => current.is_compatible_with(&d) && current.preference_rank(&d) == k,
                None => false,
            },
            None => false,
        };
        proof {
            assert(keep == rank_pred(*current, k as int)(artifacts@[i as int]));
        }
        if keep {
            out.push(a.clone());
        }
        proof {
            let s = artifacts@.take(i as int);
            let t = artifacts@.take(i + 1);
            assert(t.drop_last() =~= s);
            assert(t.last() == artifacts@[i as int]);
        }
        i += 1;
    }
    proof {
        assert(artifacts@.take(artifacts@.len() as int) =~= artifacts@);
    }
    out
}

/// Copies a byte vector.
fn copy_bytes(v: &Vec<u8>) -> (r: Vec<u8>)
    ensures
        r@ == v@,
{
    let mut out: Vec<u8> = Vec::new();
    let mut i: usize = 0;
    while i < v.len()
        invariant
            i <= v@.len(),
            out@ =~= v@.take(i as int),
        decreases v@.len() - i,
    {
        out.push(v[i]);
        i += 1;
    }
    proof {
        assert(v@.take(v@.len() as int) =~= v@);
    }
    out
}

/// Builds the diagnostic preview of an unreadable payload.
fn payload_preview(contents: &Vec<u8>) -> (r: String)
    ensures
        r@ == preview_spec(contents@),
{
    if contents.len() > 134 {
        let mut head: Vec<u8> = Vec::new();
        let mut i: usize = 0;
        while i < 128
            invariant
                i <= 128,
                contents@.len() > 134,
                head@ =~= contents@.take(i as int),
            decreases 128 - i,
        {
            head.push(contents[i]);
            i += 1;
        }
        let text = utf8_lossy(&head);
        let cs = str_chars(text.as_str());
        let mut out = trim_chars(&cs);
        out.push(' ');
        out.push('<');
        out.push('.');
        out.push('.');
        out.push('.');
        out.push('>');
        proof {
            assert(out@ =~= trim_seq(lossy_text(contents@.take(128))) + seq![
                ' ',
                '<',
                '.',
                '.',
                '.',
                '>',
            ]);
        }
        chars_string(&out)
    } else {
        utf8_lossy(contents)
    }
}

/// The message reported with a malformed tar payload.
fn tar_error_message() -> (r: String) {
    let v: Vec<char> = vec![
        'i',
        'n',
        'v',
        'a',
        'l',
        'i',
        'd',
        ' ',
        't',
        'a',
        'r',
        ' ',
        'a',
        'r',
        'c',
        'h',
        'i',
        'v',
        'e',
    ];
    chars_string(&v)
}

impl Artifact {
    /// Wraps one GitHub release asset into an artifact for the given tool
    /// request, inferring the container format from the asset's name.
    pub fn from_github_release_asset(asset: &Asset, spec: &ToolSpec) -> (r: Artifact)
        ensures
            r.provider == ArtifactProvider::GitHub,
            r.format == format_of_name(asset.name@),
            r.id matches Some(i) && i@ == dec_digits(asset.id as int),
            r.url matches Some(u) && u == asset.url,
            r.name matches Some(n) && n == asset.name,
            r.tool_spec == *spec,
    {
        let format = ArtifactFormat::from_path_or_url(asset.name.as_str());
        Artifact {
            provider: ArtifactProvider::GitHub,
            format,
            id: Some(u64_to_dec(asset.id)),
            url: Some(asset.url.clone()),
            name: Some(asset.name.clone()),
            tool_spec: spec.clone(),
        }
    }

    /// Extracts the tool's executable bytes from the artifact's downloaded
    /// payload, judging operating-system compatibility against the given
    /// current system (`None` means the current system is unknown and no
    /// mismatch is reported).
    pub fn extract_contents_checked(&self, contents: &Vec<u8>, current_os: Option<Os>) -> (r:
        Result<Vec<u8>, ExtractError>)
        ensures
            extract_post(*self, contents@, current_os, res_view(r)),
    {
        let format = match self.format {
            None => {
                return Err(ExtractError::UnknownFormat);
            },
            Some(f) => f,
        };
        let tool_bytes: Vec<u8> = slice_to_vec(self.tool_spec.name.as_str().as_bytes());
        let looked: Result<Option<Vec<u8>>, String> = match format {
            ArtifactFormat::Zip => zip_find_member(contents, self.tool_spec.name.as_str()),
            ArtifactFormat::Tar => match tar_find_member(contents, &tool_bytes) {
                Some(x) => Ok(x),
                None => Err(tar_error_message()),
            },
            ArtifactFormat::TarGz => match gzip_decompress(contents) {
                Ok(t) => match tar_find_member(&t, &tool_bytes) {
                    Some(x) => Ok(x),
                    None => Err(tar_error_message()),
                },
                Err(e) => Err(e),
            },
            ArtifactFormat::Pe => Ok(Some(copy_bytes(contents))),
            ArtifactFormat::Elf => Ok(Some(copy_bytes(contents))),
        };
        let archive_name: String = match &self.name {
            Some(n) => n.clone(),
            None => String::new(),
        };
        match looked {
            Err(source) => Err(
                ExtractError::Generic { source, body: payload_preview(contents) },
            ),
            Ok(None) => Err(
                ExtractError::FileMissing {
                    format,
                    file_name: self.tool_spec.name.clone(),
                    archive_name,
                },
            ),
            Ok(Some(data)) => {
                let file_os = Os::detect_from_executable(&data);
                match (current_os, file_os) {
                    (Some(c), Some(d)) => {
                        let same = match (c, d) {
                            (Os::Windows, Os::Windows) => true,
                            (Os::MacOs, Os::MacOs) => true,
                            (Os::Linux, Os::Linux) => true,
                            _ => false,
                        };
                        if !same {
                            Err(
                                ExtractError::OSMismatch {
                                    current_os: c,
                                    file_os: d,
                                    file_name: self.tool_spec.name.clone(),
                                    archive_name,
                                },
                            )
                        } else {
                            Ok(data)
                        }
                    },
                    _ => Ok(data),
                }
            },
        }
    }

    /// Extracts the tool's executable bytes from the artifact's downloaded
    /// payload, judging operating-system compatibility against the machine
    /// this library runs on.
    pub fn extract_contents(&self, contents: Vec<u8>) -> (r: Result<Vec<u8>, ExtractError>)
        ensures
            exists|cur: Option<Os>| extract_post(*self, contents@, cur, res_view(r)),
    {
        let current = Os::current_system();
        let r = self.extract_contents_checked(&contents, current);
        proof {
            assert(extract_post(*self, contents@, current, res_view(r)));
        }
        r
    }

    /// Filters a batch of candidate artifacts down to those compatible
    /// with the given current system, ranked most-preferred first.
    pub fn sort_by_system_compatibility_with(current: &Descriptor, artifacts: &Vec<Artifact>) -> (r:
        Vec<Artifact>)
        ensures
            r@ == selected_spec(*current, artifacts@),
    {
        let mut out = select_rank(current, artifacts, 0);
        let mut mid = select_rank(current, artifacts, 1);
        let mut tail = select_rank(current, artifacts, 2);
        out.append(&mut mid);
        out.append(&mut tail);
        out
    }

    /// Filters a batch of candidate artifacts down to those compatible
    /// with the machine this library runs on, ranked most-preferred first;
    /// empty on a platform whose fingerprint cannot be derived.
    pub fn sort_by_system_compatibility(artifacts: &Vec<Artifact>) -> (r: Vec<Artifact>)
        ensures
            (exists|cur: Descriptor| r@ == selected_spec(cur, artifacts@)) || r@ =~= Seq::<
                Artifact,
            >::empty(),
    {
        match Descriptor::current_system() {
            Some(cur) => {
                let rr = Artifact::sort_by_system_compatibility_with(&cur, artifacts);
                proof {
                    assert(rr@ == selected_spec(cur, artifacts@));
                }
                rr
            },
            None => Vec::new(),
        }
    }

    /// Last-resort selection against the given current system: the unique
    /// artifact sharing its operating system, or nothing when there is
    /// none or more than one.
    pub fn find_partially_compatible_fallback_with(
        current: &Descriptor,
        artifacts: &Vec<Artifact>,
    ) -> (r: Option<Artifact>)
        ensures
            fallback_post(*current, artifacts@, r),
    {
        let mut matches: Vec<Artifact> = Vec::new();
        let mut i: usize = 0;
        while i < artifacts.len()
            invariant
                i <= artifacts@.len(),
                matches@ =~= kept(os_pred(*current), artifacts@.take(i as int)),
            decreases artifacts@.len() - i,
        {
            let a = &artifacts[i];
            let keep: bool = match &a.name {
                Some(n) => match Descriptor::detect(n.as_str()) {
                    Some(d) => {
                        let cur_os = current.os();
                        let asset_os = d.os();
                        match (cur_os, asset_os) {
                            (Os::Windows, Os::Windows) => true,
                            (Os::MacOs, Os::MacOs) => true,
                            (Os::Linux, Os::Linux) => true,
                            _ => false,
                        }
                    },
                    None => false,
                },
                None => false,
            };
            proof {
                assert(keep == os_pred(*current)(artifacts@[i as int]));
            }
            if keep {
                matches.push(a.clone());
            }
            proof {
                let s = artifacts@.take(i as int);
                let t = artifacts@.take(i + 1);
                assert(t.drop_last() =~= s);
                assert(t.last() == artifacts@[i as int]);
            }
            i += 1;
        }
        proof {
            assert(artifacts@.take(artifacts@.len() as int) =~= artifacts@);
        }
        if matches.len() == 1 {
            let found = matches[0].clone();
            Some(found)
        } else {
            None
        }
    }

    /// Last-resort selection against the machine this library runs on.
    pub fn find_partially_compatible_fallback(artifacts: &Vec<Artifact>) -> (r: Option<Artifact>)
        ensures
            (exists|cur: Descriptor| fallback_post(cur, artifacts@, r)) || r is None,
    {
        match Descriptor::current_system() {
            Some(cur) => {
                let rr = Artifact::find_partially_compatible_fallback_with(&cur, artifacts);
                proof {
                    assert(fallback_post(cur, artifacts@, rr));
                }
                rr
            },
            None => None,
        }
    }
}

} // verus!
