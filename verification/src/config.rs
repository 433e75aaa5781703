//! The settings of the application: what they default to, what they are bounded by, and which
//! settings are refused.
use crate::digest;
use crate::paths;
use crate::scalar::Scalar;
use crate::text;
use vstd::prelude::*;
use vstd::string::StringSliceAdditionalSpecFns;

verus! {

/// The pattern of 0.10.
pub const DEFAULT_EXTERNAL_PROBABILITY: u32 = 0x3dcc_cccd;

/// The pattern of 0.35.
pub const DEFAULT_ARENA_EXPLORE: u32 = 0x3eb3_3333;

/// The pattern of 0.35.
pub const DEFAULT_DEDUP_RADIUS: u32 = 0x3eb3_3333;

/// The pattern of 80.
pub const DEFAULT_FACEMASH_MIN_FACE_SIDE: u32 = 0x42a0_0000;

/// The pattern of 24.
pub const MIN_FACEMASH_MIN_FACE_SIDE: u32 = 0x41c0_0000;

/// The pattern of 256.
pub const MAX_FACEMASH_MIN_FACE_SIDE: u32 = 0x4380_0000;

/// The pattern of 0.35.
pub const DEFAULT_IDENTITY_MATCH_THRESHOLD: u32 = 0x3eb3_3333;

/// The pattern of -1.
pub const MINUS_ONE: u32 = 0xbf80_0000;

/// The pattern of 0.
pub const ZERO: u32 = 0x0000_0000;

/// The pattern of 1.
pub const ONE: u32 = 0x3f80_0000;

/// Why settings are refused.
#[derive(Debug, PartialEq, Eq)]
pub enum ConfigError {
    /// The address to listen on is none.
    InvalidBindAddr { bind_addr: String },
    /// The path of the collection is empty.
    EmptyCorpusRoot,
    /// The weight of a source is negative or not finite.
    InvalidSourceWeight { weight: Scalar },
    /// The name of a board is empty or holds something but letters and digits.
    InvalidBoard { board: String },
    /// A source asks for videos.
    VideoUpstream,
    /// The path of a local source is empty.
    EmptySourceRoot,
    /// The path of a local source leads nowhere.
    SourceRootMissing { root: String },
    /// The path of a local source does not lead to a directory.
    SourceRootNotDirectory { root: String },
}

impl ConfigError {
    /// What is shown of the refusal. The number in a refused weight is left to the caller.
    pub open spec fn spec_message(self) -> Seq<char> {
        match self {
            ConfigError::InvalidBindAddr { bind_addr } => "parsing runtime.bind_addr `"@ + bind_addr@
                + "`"@,
            ConfigError::EmptyCorpusRoot => "runtime.corpus_root is empty"@,
            ConfigError::InvalidSourceWeight { .. } => "invalid source weight"@,
            ConfigError::InvalidBoard { board } => "invalid 4chan board name: "@ + board@,
            ConfigError::VideoUpstream => "video upstreams are not implemented yet"@,
            ConfigError::EmptySourceRoot => "local directory source root is empty"@,
            ConfigError::SourceRootMissing { root } => "local directory source missing: "@ + root@,
            ConfigError::SourceRootNotDirectory { root } => {
                "local directory source is not a directory: "@ + root@
            },
        }
    }

    /// What is shown of the refusal. The number in a refused weight is left to the caller.
    pub fn message(&self) -> (r: String)
        ensures
            r@ == self.spec_message(),
    {
        match self {
            ConfigError::InvalidBindAddr { bind_addr } => {
                let mut out = "parsing runtime.bind_addr `".to_owned();
                out.append(bind_addr.as_str());
                out.append("`");
                out
            },
            ConfigError::EmptyCorpusRoot => "runtime.corpus_root is empty".to_owned(),
            ConfigError::InvalidSourceWeight { .. } => "invalid source weight".to_owned(),
            ConfigError::InvalidBoard { board } => "invalid 4chan board name: ".to_owned().concat(
                board.as_str(),
            ),
            ConfigError::VideoUpstream => "video upstreams are not implemented yet".to_owned(),
            ConfigError::EmptySourceRoot => "local directory source root is empty".to_owned(),
            ConfigError::SourceRootMissing { root } => {
                "local directory source missing: ".to_owned().concat(root.as_str())
            },
            ConfigError::SourceRootNotDirectory { root } => {
                "local directory source is not a directory: ".to_owned().concat(root.as_str())
            },
        }
    }
}

/// What the file system says of the root of a local source.
#[derive(Debug, Clone, Copy, PartialEq, Eq, Structural)]
pub struct RootProbe {
    pub exists: bool,
    pub is_dir: bool,
}

/// The white space of Unicode.
pub open spec fn is_space(c: char) -> bool {
    ||| 0x09 <= c as u32 <= 0x0d
    ||| c as u32 == 0x20
    ||| c as u32 == 0x85
    ||| c as u32 == 0xa0
    ||| c as u32 == 0x1680
    ||| 0x2000 <= c as u32 <= 0x200a
    ||| c as u32 == 0x2028
    ||| c as u32 == 0x2029
    ||| c as u32 == 0x202f
    ||| c as u32 == 0x205f
    ||| c as u32 == 0x3000
}

/// The text without the white space at its ends.
pub open spec fn trimmed(s: Seq<char>) -> Seq<char>
    decreases s.len(),
{
    if s.len() == 0 {
        s
    } else if is_space(s[0]) {
        trimmed(s.skip(1))
    } else if is_space(s.last()) {
        trimmed(s.drop_last())
    } else {
        s
    }
}

/// The address to listen on: without white space around it, and the default where it is blank.
pub open spec fn bind_addr_or_default(s: Seq<char>) -> Seq<char> {
    if trimmed(s).len() == 0 {
        "127.0.0.1:8788"@
    } else {
        trimmed(s)
    }
}

fn char_is_space(c: char) -> (r: bool)
    ensures
        r == is_space(c),
{
    let code: u32 = c as u32;
    (0x09 <= code && code <= 0x0d) || code == 0x20 || code == 0x85 || code == 0xa0 || code == 0x1680 || (
    0x2000 <= code && code <= 0x200a) || code == 0x2028 || code == 0x2029 || code == 0x202f || code
        == 0x205f || code == 0x3000
}

/// The text without the white space at its ends.
pub fn trim(s: &str) -> (r: String)
    ensures
        r@ == trimmed(s@),
{
    let chars = text::chars_of(s);
    let mut from: usize = 0;
    let mut to: usize = chars.len();
    assert(chars@.subrange(0, chars@.len() as int) =~= s@);
    while from < to && char_is_space(chars[from])
        invariant
            from <= to,
            to == chars.len(),
            trimmed(s@) == trimmed(chars@.subrange(from as int, to as int)),
        decreases to - from,
    {
        let ghost here = chars@.subrange(from as int, to as int);
        assert(here.skip(1) =~= chars@.subrange(from + 1, to as int));
        from += 1;
    }
    while from < to && char_is_space(chars[to - 1])
        invariant
            from <= to <= chars.len(),
            from < to ==> !is_space(chars@[from as int]),
            trimmed(s@) == trimmed(chars@.subrange(from as int, to as int)),
        decreases to - from,
    {
        let ghost here = chars@.subrange(from as int, to as int);
        assert(here.drop_last() =~= chars@.subrange(from as int, to - 1));
        to -= 1;
    }
    let kept = paths::piece(&chars, from, to);
    text::text_of(&kept)
}

/// The address that is listened on where none is set.
pub fn default_bind_addr() -> (r: String)
    ensures
        r@ == "127.0.0.1:8788"@,
{
    "127.0.0.1:8788".to_owned()
}

/// The address to listen on: without white space around it, and the default where it is blank.
pub fn normalize_bind_addr(bind_addr: &str) -> (r: String)
    ensures
        r@ == bind_addr_or_default(bind_addr@),
{
    let kept = trim(bind_addr);
    if kept.as_str().is_empty() {
        default_bind_addr()
    } else {
        kept
    }
}

/// Whether sources may hold images that are not safe for work, where nothing is set.
pub fn default_allow_nsfw() -> (r: bool)
    ensures
        r,
{
    true
}

/// Whether sources may hold videos, where nothing is set.
pub fn default_allow_video() -> (r: bool)
    ensures
        !r,
{
    false
}

/// Whether directories within a local source are searched, where nothing is set.
pub fn default_local_recurse() -> (r: bool)
    ensures
        r,
{
    true
}

/// The seconds between two scans of a source, where nothing is set.
pub fn default_scan_interval_seconds() -> (r: u64)
    ensures
        r == 120,
{
    120
}

/// How many threads of a catalog are read, where nothing is set: 0 stands for all.
pub fn default_catalog_threads() -> (r: usize)
    ensures
        r == 0,
{
    0
}

/// How many threads are fetched in one scan, where nothing is set: 0 stands for all.
pub fn default_thread_fetches_per_scan() -> (r: usize)
    ensures
        r == 0,
{
    0
}

/// The shortest edge of images that are taken, where nothing is set.
pub fn default_min_shortest_edge() -> (r: u32)
    ensures
        r == 800,
{
    800
}

/// The largest download that is taken, where nothing is set: eight mebibytes.
pub fn default_max_download_bytes() -> (r: u64)
    ensures
        r == 8 * 1024 * 1024,
{
    8388608
}

/// The weight of a source, where none is set.
pub fn default_source_weight() -> (r: Scalar)
    ensures
        r.bits == ONE,
{
    Scalar { bits: ONE }
}

/// A limit, of which 0 stands for none.
pub fn nonzero_limit(limit: usize) -> (r: Option<usize>)
    ensures
        r == if limit == 0 {
            None
        } else {
            Some(limit)
        },
{
    if limit == 0 {
        None
    } else {
        Some(limit)
    }
}

/// What a source may hold.
#[derive(Debug, Clone, Copy, PartialEq, Eq, Structural)]
pub struct FourChanContentConfig {
    pub allow_nsfw: bool,
    pub allow_video: bool,
}

impl Default for FourChanContentConfig {
    fn default() -> (r: Self)
        ensures
            r == (FourChanContentConfig { allow_nsfw: true, allow_video: false }),
    {
        FourChanContentConfig {
            allow_nsfw: default_allow_nsfw(),
            allow_video: default_allow_video(),
        }
    }
}

/// How much of a source is read.
#[derive(Debug, Clone, Copy, PartialEq, Eq, Structural)]
pub struct FourChanHarvestConfig {
    pub catalog_threads: usize,
    pub thread_fetches_per_scan: usize,
}

impl Default for FourChanHarvestConfig {
    fn default() -> (r: Self)
        ensures
            r == (FourChanHarvestConfig { catalog_threads: 0, thread_fetches_per_scan: 0 }),
    {
        FourChanHarvestConfig {
            catalog_threads: default_catalog_threads(),
            thread_fetches_per_scan: default_thread_fetches_per_scan(),
        }
    }
}

impl FourChanHarvestConfig {
    /// How many threads of the catalog are read at most, if there is a limit.
    pub fn catalog_thread_cap(&self) -> (r: Option<usize>)
        ensures
            r == if self.catalog_threads == 0 {
                None
            } else {
                Some(self.catalog_threads)
            },
    {
        nonzero_limit(self.catalog_threads)
    }

    /// How many threads are fetched in one scan at most, if there is a limit.
    pub fn thread_fetch_cap(&self) -> (r: Option<usize>)
        ensures
            r == if self.thread_fetches_per_scan == 0 {
                None
            } else {
                Some(self.thread_fetches_per_scan)
            },
    {
        nonzero_limit(self.thread_fetches_per_scan)
    }
}

/// Which images of a source are taken.
#[derive(Debug, Clone, Copy, PartialEq, Eq, Structural)]
pub struct RemoteImageFilterConfig {
    pub min_shortest_edge: u32,
    pub max_download_bytes: u64,
}

impl Default for RemoteImageFilterConfig {
    fn default() -> (r: Self)
        ensures
            r == (RemoteImageFilterConfig { min_shortest_edge: 800, max_download_bytes: 8388608 }),
    {
        RemoteImageFilterConfig {
            min_shortest_edge: default_min_shortest_edge(),
            max_download_bytes: default_max_download_bytes(),
        }
    }
}

/// Which outside images are taken into the collection.
#[derive(Debug, Clone, Copy, PartialEq, Eq, Structural)]
pub enum ImportPolicy {
    NotX,
    Hearted,
}

impl Default for ImportPolicy {
    fn default() -> (r: Self)
        ensures
            r is NotX,
    {
        ImportPolicy::NotX
    }
}

/// A board that images are read from.
#[derive(Debug, PartialEq, Eq)]
pub struct FourChanBoardSource {
    pub board: String,
    pub content: FourChanContentConfig,
    pub harvest: FourChanHarvestConfig,
    pub filters: RemoteImageFilterConfig,
}

impl Clone for FourChanBoardSource {
    fn clone(&self) -> (r: Self)
        ensures
            r == *self,
    {
        FourChanBoardSource {
            board: self.board.clone(),
            content: self.content,
            harvest: self.harvest,
            filters: self.filters,
        }
    }
}

/// A letter or digit of ASCII.
pub open spec fn is_alphanumeric(c: char) -> bool {
    ('0' <= c <= '9') || ('A' <= c <= 'Z') || ('a' <= c <= 'z')
}

/// Whether the character is a letter or digit of ASCII.
pub fn char_is_alphanumeric(c: char) -> (r: bool)
    ensures
        r == is_alphanumeric(c),
{
    ('0' <= c && c <= '9') || ('A' <= c && c <= 'Z') || ('a' <= c && c <= 'z')
}

/// The name of a board: some letters and digits, and nothing else.
pub open spec fn is_board(s: Seq<char>) -> bool {
    s.len() > 0 && forall|i: int| 0 <= i < s.len() ==> is_alphanumeric(#[trigger] s[i])
}

/// The lower case letter of a capital of ASCII, and any other character itself.
pub open spec fn lower(c: char) -> char {
    if 'A' <= c <= 'Z' {
        ((c as u32) + 32) as char
    } else {
        c
    }
}

/// The text with the capitals of ASCII in lower case.
pub open spec fn lowered(s: Seq<char>) -> Seq<char> {
    s.map_values(|c: char| lower(c))
}

/// The lower case letter of a capital of ASCII, and any other character itself.
pub fn char_lower(c: char) -> (r: char)
    ensures
        r == lower(c),
{
    if 'A' <= c && c <= 'Z' {
        let code: u8 = c as u8;
        (code + 32) as char
    } else {
        c
    }
}

/// The text with the capitals of ASCII in lower case.
pub fn to_lower(s: &str) -> (r: String)
    ensures
        r@ == lowered(s@),
{
    let chars = text::chars_of(s);
    let mut out = String::new();
    let mut i: usize = 0;
    while i < chars.len()
        invariant
            i <= chars.len(),
            out@ == lowered(chars@.take(i as int)),
        decreases chars.len() - i,
    {
        out.push(char_lower(chars[i]));
        assert(out@ =~= lowered(chars@.take(i + 1)));
        i += 1;
    }
    assert(chars@.take(i as int) =~= chars@);
    out
}

impl FourChanBoardSource {
    /// What `validate` returns.
    pub open spec fn spec_validate(self) -> Result<(), ConfigError> {
        if !is_board(self.board@) {
            Err(ConfigError::InvalidBoard { board: self.board })
        } else if self.content.allow_video {
            Err(ConfigError::VideoUpstream)
        } else {
            Ok(())
        }
    }

    /// Refuses a board whose name is none, or that asks for videos.
    pub fn validate(&self) -> (r: Result<(), ConfigError>)
        ensures
            r == self.spec_validate(),
    {
        let chars = text::chars_of(self.board.as_str());
        let mut good = chars.len() > 0;
        let mut i: usize = 0;
        while i < chars.len()
            invariant
                i <= chars.len(),
                good == (chars.len() > 0 && forall|j: int| 0 <= j < i ==> is_alphanumeric(#[trigger] chars@[j])),
            decreases chars.len() - i,
        {
            if !char_is_alphanumeric(chars[i]) {
                good = false;
            }
            i += 1;
        }
        if !good {
            return Err(ConfigError::InvalidBoard { board: self.board.clone() });
        }
        if self.content.allow_video {
            return Err(ConfigError::VideoUpstream);
        }
        Ok(())
    }

    /// Writes the name of the board in lower case.
    pub fn normalize(&mut self)
        ensures
            final(self).board@ == lowered(old(self).board@),
            final(self).content == old(self).content,
            final(self).harvest == old(self).harvest,
            final(self).filters == old(self).filters,
    {
        self.board = to_lower(self.board.as_str());
    }
}

/// A directory that images are read from.
#[derive(Debug, PartialEq, Eq)]
pub struct LocalDirectorySource {
    pub root: String,
    pub recurse: bool,
    pub filters: RemoteImageFilterConfig,
}

impl Clone for LocalDirectorySource {
    fn clone(&self) -> (r: Self)
        ensures
            r == *self,
    {
        LocalDirectorySource {
            root: self.root.clone(),
            recurse: self.recurse,
            filters: self.filters,
        }
    }
}

/// The key of a directory: the first sixteen digits of the fingerprint of its path.
pub open spec fn local_source_key(root: Seq<char>) -> Seq<char> {
    "local:"@ + digest::text_digest(vstd::utf8::encode_utf8(root)).take(16)
}

/// The name of a directory: that of its last component, or its path where it has none.
pub open spec fn local_display_name(root: Seq<char>) -> Seq<char> {
    "dir:"@ + match paths::file_name(root) {
        None => root,
        Some(name) => name,
    }
}

impl LocalDirectorySource {
    /// The key of the source.
    pub fn source_key(&self) -> (r: String)
        ensures
            r@ == local_source_key(self.root@),
    {
        let full = digest::digest_text(self.root.as_str());
        let chars = text::chars_of(full.as_str());
        let head = paths::piece(&chars, 0, 16);
        assert(head@ =~= full@.take(16));
        "local:".to_owned().concat(text::text_of(&head).as_str())
    }

    /// The name of the source.
    pub fn display_name(&self) -> (r: String)
        ensures
            r@ == local_display_name(self.root@),
    {
        match paths::file_name_of(self.root.as_str()) {
            None => "dir:".to_owned().concat(self.root.as_str()),
            Some(name) => "dir:".to_owned().concat(name.as_str()),
        }
    }

    /// What `validate` returns.
    pub open spec fn spec_validate(self, probe: RootProbe) -> Result<(), ConfigError> {
        if self.root@.len() == 0 {
            Err(ConfigError::EmptySourceRoot)
        } else if !probe.exists {
            Err(ConfigError::SourceRootMissing { root: self.root })
        } else if !probe.is_dir {
            Err(ConfigError::SourceRootNotDirectory { root: self.root })
        } else {
            Ok(())
        }
    }

    /// Refuses a root that is empty, missing or no directory.
    pub fn validate(&self, probe: RootProbe) -> (r: Result<(), ConfigError>)
        ensures
            r == self.spec_validate(probe),
    {
        if self.root.as_str().is_empty() {
            return Err(ConfigError::EmptySourceRoot);
        }
        if !probe.exists {
            return Err(ConfigError::SourceRootMissing { root: self.root.clone() });
        }
        if !probe.is_dir {
            return Err(ConfigError::SourceRootNotDirectory { root: self.root.clone() });
        }
        Ok(())
    }

    /// Replaces the root by its canonical path, where it has one.
    pub fn normalize(&mut self, canonical: Option<String>)
        ensures
            final(self).root == match canonical {
                None => old(self).root,
                Some(path) => path,
            },
            final(self).recurse == old(self).recurse,
            final(self).filters == old(self).filters,
    {
        match canonical {
            None => {},
            Some(path) => {
                self.root = path;
            },
        }
    }
}

/// Where images are read from.
#[derive(Debug, PartialEq, Eq)]
pub enum UpstreamSource {
    FourChanBoard(FourChanBoardSource),
    LocalDirectory(LocalDirectorySource),
}

impl Clone for UpstreamSource {
    fn clone(&self) -> (r: Self)
        ensures
            r == *self,
    {
        match self {
            UpstreamSource::FourChanBoard(source) => UpstreamSource::FourChanBoard(source.clone()),
            UpstreamSource::LocalDirectory(source) => UpstreamSource::LocalDirectory(source.clone()),
        }
    }
}

impl UpstreamSource {
    /// The key that `source_key` returns.
    pub open spec fn key(self) -> Seq<char> {
        match self {
            UpstreamSource::FourChanBoard(source) => "4chan:"@ + source.board@,
            UpstreamSource::LocalDirectory(source) => local_source_key(source.root@),
        }
    }

    /// The key of the source.
    pub fn source_key(&self) -> (r: String)
        ensures
            r@ == self.key(),
    {
        match self {
            UpstreamSource::FourChanBoard(source) => "4chan:".to_owned().concat(
                source.board.as_str(),
            ),
            UpstreamSource::LocalDirectory(source) => source.source_key(),
        }
    }

    /// The name of the source.
    pub fn display_name(&self) -> (r: String)
        ensures
            r@ == match *self {
                UpstreamSource::FourChanBoard(_) => self.key(),
                UpstreamSource::LocalDirectory(source) => local_display_name(source.root@),
            },
    {
        match self {
            UpstreamSource::FourChanBoard(_) => self.source_key(),
            UpstreamSource::LocalDirectory(source) => source.display_name(),
        }
    }

    /// The name of the kind of source.
    pub fn source_type_name(&self) -> (r: &'static str)
        ensures
            r@ == match *self {
                UpstreamSource::FourChanBoard(_) => "4chan_board"@,
                UpstreamSource::LocalDirectory(_) => "local_directory"@,
            },
    {
        match self {
            UpstreamSource::FourChanBoard(_) => "4chan_board",
            UpstreamSource::LocalDirectory(_) => "local_directory",
        }
    }

    /// The board or the directory.
    pub fn source_locator(&self) -> (r: String)
        ensures
            r == match *self {
                UpstreamSource::FourChanBoard(source) => source.board,
                UpstreamSource::LocalDirectory(source) => source.root,
            },
    {
        match self {
            UpstreamSource::FourChanBoard(source) => source.board.clone(),
            UpstreamSource::LocalDirectory(source) => source.root.clone(),
        }
    }

    /// The board, if the source is one.
    pub fn four_chan_board(&self) -> (r: Option<&FourChanBoardSource>)
        ensures
            r == match *self {
                UpstreamSource::FourChanBoard(source) => Some(&source),
                UpstreamSource::LocalDirectory(_) => None,
            },
    {
        match self {
            UpstreamSource::FourChanBoard(source) => Some(source),
            UpstreamSource::LocalDirectory(_) => None,
        }
    }

    /// The directory, if the source is one.
    pub fn local_directory(&self) -> (r: Option<&LocalDirectorySource>)
        ensures
            r == match *self {
                UpstreamSource::LocalDirectory(source) => Some(&source),
                UpstreamSource::FourChanBoard(_) => None,
            },
    {
        match self {
            UpstreamSource::LocalDirectory(source) => Some(source),
            UpstreamSource::FourChanBoard(_) => None,
        }
    }

    /// What `validate` returns.
    pub open spec fn spec_validate(self, probe: RootProbe) -> Result<(), ConfigError> {
        match self {
            UpstreamSource::FourChanBoard(source) => source.spec_validate(),
            UpstreamSource::LocalDirectory(source) => source.spec_validate(probe),
        }
    }

    /// Refuses a source that cannot be read; `probe` is what the file system says of a
    /// directory.
    pub fn validate(&self, probe: RootProbe) -> (r: Result<(), ConfigError>)
        ensures
            r == self.spec_validate(probe),
    {
        match self {
            UpstreamSource::FourChanBoard(source) => source.validate(),
            UpstreamSource::LocalDirectory(source) => source.validate(probe),
        }
    }

    /// Whether `after` is the source written in its usual form; `canonical` is the canonical path
    /// of a directory, where it has one.
    pub open spec fn normalized_from(after: UpstreamSource, before: UpstreamSource, canonical: Option<
        Seq<char>,
    >) -> bool {
        match (before, after) {
            (UpstreamSource::FourChanBoard(b), UpstreamSource::FourChanBoard(a)) => {
                &&& a.board@ == lowered(b.board@)
                &&& a.content == b.content
                &&& a.harvest == b.harvest
                &&& a.filters == b.filters
            },
            (UpstreamSource::LocalDirectory(b), UpstreamSource::LocalDirectory(a)) => {
                &&& a.root@ == match canonical {
                    None => b.root@,
                    Some(path) => path,
                }
                &&& a.recurse == b.recurse
                &&& a.filters == b.filters
            },
            _ => false,
        }
    }

    /// Writes the source in its usual form; `canonical` is the canonical path of a directory,
    /// where it has one.
    pub fn normalize(&mut self, canonical: Option<String>)
        ensures
            UpstreamSource::normalized_from(
                *final(self),
                *old(self),
                match canonical {
                    None => None,
                    Some(path) => Some(path@),
                },
            ),
    {
        match self {
            UpstreamSource::FourChanBoard(source) => source.normalize(),
            UpstreamSource::LocalDirectory(source) => source.normalize(canonical),
        }
    }
}

/// The weight of a source, and the default where it is negative or not finite.
pub open spec fn weight_or_default(weight: Scalar) -> Scalar {
    if weight.finite() && weight.order() >= 0 {
        weight
    } else {
        Scalar { bits: ONE }
    }
}

/// The weight of a source, and the default where it is negative or not finite.
pub fn normalize_source_weight(weight: Scalar) -> (r: Scalar)
    ensures
        r == weight_or_default(weight),
{
    if weight.is_finite() && weight.does_reach(Scalar { bits: ZERO }) {
        weight
    } else {
        default_source_weight()
    }
}

/// A source, and how it is read.
#[derive(Debug, PartialEq, Eq)]
pub struct SourceConfig {
    pub weight: Scalar,
    pub import_policy: ImportPolicy,
    pub scan_interval_seconds: u64,
    pub upstream: UpstreamSource,
}

impl Clone for SourceConfig {
    fn clone(&self) -> (r: Self)
        ensures
            r == *self,
    {
        SourceConfig {
            weight: self.weight,
            import_policy: self.import_policy,
            scan_interval_seconds: self.scan_interval_seconds,
            upstream: self.upstream.clone(),
        }
    }
}

impl SourceConfig {
    /// The key of the source.
    pub fn source_key(&self) -> (r: String)
        ensures
            r@ == self.upstream.key(),
    {
        self.upstream.source_key()
    }

    /// The name of the source.
    pub fn display_name(&self) -> (r: String)
        ensures
            r@ == match self.upstream {
                UpstreamSource::FourChanBoard(_) => self.upstream.key(),
                UpstreamSource::LocalDirectory(source) => local_display_name(source.root@),
            },
    {
        self.upstream.display_name()
    }

    /// The name of the kind of source.
    pub fn source_type_name(&self) -> (r: &'static str)
        ensures
            r@ == match self.upstream {
                UpstreamSource::FourChanBoard(_) => "4chan_board"@,
                UpstreamSource::LocalDirectory(_) => "local_directory"@,
            },
    {
        self.upstream.source_type_name()
    }

    /// The board or the directory.
    pub fn source_locator(&self) -> (r: String)
        ensures
            r == match self.upstream {
                UpstreamSource::FourChanBoard(source) => source.board,
                UpstreamSource::LocalDirectory(source) => source.root,
            },
    {
        self.upstream.source_locator()
    }

    /// The board, if the source is one.
    pub fn four_chan_board(&self) -> (r: Option<&FourChanBoardSource>)
        ensures
            r == match self.upstream {
                UpstreamSource::FourChanBoard(source) => Some(&source),
                UpstreamSource::LocalDirectory(_) => None,
            },
    {
        self.upstream.four_chan_board()
    }

    /// The directory, if the source is one.
    pub fn local_directory(&self) -> (r: Option<&LocalDirectorySource>)
        ensures
            r == match self.upstream {
                UpstreamSource::LocalDirectory(source) => Some(&source),
                UpstreamSource::FourChanBoard(_) => None,
            },
    {
        self.upstream.local_directory()
    }

    /// What `validate` returns.
    pub open spec fn spec_validate(self, probe: RootProbe) -> Result<(), ConfigError> {
        if !self.weight.finite() || self.weight.order() < 0 {
            Err(ConfigError::InvalidSourceWeight { weight: self.weight })
        } else {
            self.upstream.spec_validate(probe)
        }
    }

    /// Refuses a source whose weight is negative or not finite, or that cannot be read.
    pub fn validate(&self, probe: RootProbe) -> (r: Result<(), ConfigError>)
        ensures
            r == self.spec_validate(probe),
    {
        if self.weight.is_below(Scalar { bits: ZERO }) || !self.weight.is_finite() {
            return Err(ConfigError::InvalidSourceWeight { weight: self.weight });
        }
        self.upstream.validate(probe)
    }

    /// Whether `after` is the source written in its usual form.
    pub open spec fn normalized_from(after: SourceConfig, before: SourceConfig, canonical: Option<
        Seq<char>,
    >) -> bool {
        &&& after.weight == weight_or_default(before.weight)
        &&& after.import_policy == before.import_policy
        &&& after.scan_interval_seconds == before.scan_interval_seconds
        &&& UpstreamSource::normalized_from(after.upstream, before.upstream, canonical)
    }

    /// Writes the source in its usual form; `canonical` is the canonical path of a directory,
    /// where it has one.
    pub fn normalize(&mut self, canonical: Option<String>)
        ensures
            SourceConfig::normalized_from(
                *final(self),
                *old(self),
                match canonical {
                    None => None,
                    Some(path) => Some(path@),
                },
            ),
    {
        self.weight = normalize_source_weight(self.weight);
        self.upstream.normalize(canonical);
    }
}

/// How the application runs.
#[derive(Debug, PartialEq, Eq)]
pub struct RuntimeConfig {
    pub bind_addr: String,
    pub corpus_root: Option<String>,
}

impl Clone for RuntimeConfig {
    fn clone(&self) -> (r: Self)
        ensures
            r == *self,
    {
        RuntimeConfig {
            bind_addr: self.bind_addr.clone(),
            corpus_root: match &self.corpus_root {
                None => None,
                Some(root) => Some(root.clone()),
            },
        }
    }
}

impl Default for RuntimeConfig {
    fn default() -> (r: Self)
        ensures
            r.bind_addr@ == "127.0.0.1:8788"@,
            r.corpus_root is None,
    {
        RuntimeConfig { bind_addr: default_bind_addr(), corpus_root: None }
    }
}

/// How pairs are drawn.
#[derive(Debug, Clone, Copy, PartialEq, Eq, Structural)]
pub struct ArenaConfig {
    pub external_probability: Scalar,
    pub explore: Scalar,
    pub dedup_radius: Scalar,
}

impl Default for ArenaConfig {
    fn default() -> (r: Self)
        ensures
            r.external_probability.bits == DEFAULT_EXTERNAL_PROBABILITY,
            r.explore.bits == DEFAULT_ARENA_EXPLORE,
            r.dedup_radius.bits == DEFAULT_DEDUP_RADIUS,
    {
        ArenaConfig {
            external_probability: Scalar { bits: DEFAULT_EXTERNAL_PROBABILITY },
            explore: Scalar { bits: DEFAULT_ARENA_EXPLORE },
            dedup_radius: Scalar { bits: DEFAULT_DEDUP_RADIUS },
        }
    }
}

/// Which faces are compared.
#[derive(Debug, Clone, Copy, PartialEq, Eq, Structural)]
pub struct FacemashConfig {
    pub min_face_side: Scalar,
}

impl Default for FacemashConfig {
    fn default() -> (r: Self)
        ensures
            r.min_face_side.bits == DEFAULT_FACEMASH_MIN_FACE_SIDE,
    {
        FacemashConfig { min_face_side: Scalar { bits: DEFAULT_FACEMASH_MIN_FACE_SIDE } }
    }
}

/// Which faces count as one subject.
#[derive(Debug, Clone, Copy, PartialEq, Eq, Structural)]
pub struct IdentitiesConfig {
    pub match_threshold: Scalar,
}

impl Default for IdentitiesConfig {
    fn default() -> (r: Self)
        ensures
            r.match_threshold.bits == DEFAULT_IDENTITY_MATCH_THRESHOLD,
    {
        IdentitiesConfig { match_threshold: Scalar { bits: DEFAULT_IDENTITY_MATCH_THRESHOLD } }
    }
}

/// From 0 to 1, and the default where it is not finite.
pub open spec fn bounded_probability(x: Scalar, fallback: u32) -> Scalar {
    x.spec_bounded(Scalar { bits: ZERO }, Scalar { bits: ONE }, Scalar { bits: fallback })
}

/// From 24 to 256, and the default where it is not finite.
pub open spec fn bounded_face_side(x: Scalar) -> Scalar {
    x.spec_bounded(
        Scalar { bits: MIN_FACEMASH_MIN_FACE_SIDE },
        Scalar { bits: MAX_FACEMASH_MIN_FACE_SIDE },
        Scalar { bits: DEFAULT_FACEMASH_MIN_FACE_SIDE },
    )
}

/// From -1 to 1, and the default where it is not finite.
pub open spec fn bounded_threshold(x: Scalar) -> Scalar {
    x.spec_bounded(
        Scalar { bits: MINUS_ONE },
        Scalar { bits: ONE },
        Scalar { bits: DEFAULT_IDENTITY_MATCH_THRESHOLD },
    )
}

/// How likely an outside image is drawn.
pub fn clamp_external_probability(probability: Scalar) -> (r: Scalar)
    ensures
        r == bounded_probability(probability, DEFAULT_EXTERNAL_PROBABILITY),
{
    probability.bounded(
        Scalar { bits: ZERO },
        Scalar { bits: ONE },
        Scalar { bits: DEFAULT_EXTERNAL_PROBABILITY },
    )
}

/// How strongly little known images are drawn.
pub fn clamp_arena_explore(explore: Scalar) -> (r: Scalar)
    ensures
        r == bounded_probability(explore, DEFAULT_ARENA_EXPLORE),
{
    explore.bounded(Scalar { bits: ZERO }, Scalar { bits: ONE }, Scalar { bits: DEFAULT_ARENA_EXPLORE })
}

/// How close two images are that count as copies.
pub fn clamp_dedup_radius(radius: Scalar) -> (r: Scalar)
    ensures
        r == bounded_probability(radius, DEFAULT_DEDUP_RADIUS),
{
    radius.bounded(Scalar { bits: ZERO }, Scalar { bits: ONE }, Scalar { bits: DEFAULT_DEDUP_RADIUS })
}

/// The smallest side of a face that is compared.
pub fn clamp_facemash_min_face_side(min_face_side: Scalar) -> (r: Scalar)
    ensures
        r == bounded_face_side(min_face_side),
{
    min_face_side.bounded(
        Scalar { bits: MIN_FACEMASH_MIN_FACE_SIDE },
        Scalar { bits: MAX_FACEMASH_MIN_FACE_SIDE },
        Scalar { bits: DEFAULT_FACEMASH_MIN_FACE_SIDE },
    )
}

/// How similar two faces are that may be one subject.
pub fn clamp_identity_match_threshold(threshold: Scalar) -> (r: Scalar)
    ensures
        r == bounded_threshold(threshold),
{
    threshold.bounded(
        Scalar { bits: MINUS_ONE },
        Scalar { bits: ONE },
        Scalar { bits: DEFAULT_IDENTITY_MATCH_THRESHOLD },
    )
}

/// The source that is read where none is set.
pub open spec fn is_default_source(source: SourceConfig) -> bool {
    &&& source.weight.bits == ONE
    &&& source.import_policy is NotX
    &&& source.scan_interval_seconds == 120
    &&& source.upstream matches UpstreamSource::FourChanBoard(board) && {
        &&& board.board@ == "s"@
        &&& board.content == (FourChanContentConfig { allow_nsfw: true, allow_video: false })
        &&& board.harvest == (FourChanHarvestConfig { catalog_threads: 0, thread_fetches_per_scan: 0 })
        &&& board.filters == (RemoteImageFilterConfig {
            min_shortest_edge: 800,
            max_download_bytes: 8388608,
        })
    }
}

/// The sources that are read where none is set.
pub fn default_sources() -> (r: Vec<SourceConfig>)
    ensures
        r@.len() == 1,
        is_default_source(r@[0]),
{
    let mut sources: Vec<SourceConfig> = Vec::new();
    sources.push(
        SourceConfig {
            weight: default_source_weight(),
            import_policy: ImportPolicy::NotX,
            scan_interval_seconds: default_scan_interval_seconds(),
            upstream: UpstreamSource::FourChanBoard(
                FourChanBoardSource {
                    board: "s".to_owned(),
                    content: FourChanContentConfig::default(),
                    harvest: FourChanHarvestConfig::default(),
                    filters: RemoteImageFilterConfig::default(),
                },
            ),
        },
    );
    sources
}

/// All settings.
#[derive(Debug, PartialEq, Eq)]
pub struct AppConfig {
    pub runtime: RuntimeConfig,
    pub arena: ArenaConfig,
    pub facemash: FacemashConfig,
    pub identities: IdentitiesConfig,
    pub sources: Vec<SourceConfig>,
}

impl Default for AppConfig {
    fn default() -> (r: Self)
        ensures
            r.runtime.bind_addr@ == "127.0.0.1:8788"@,
            r.runtime.corpus_root is None,
            r.arena.external_probability.bits == DEFAULT_EXTERNAL_PROBABILITY,
            r.arena.explore.bits == DEFAULT_ARENA_EXPLORE,
            r.arena.dedup_radius.bits == DEFAULT_DEDUP_RADIUS,
            r.facemash.min_face_side.bits == DEFAULT_FACEMASH_MIN_FACE_SIDE,
            r.identities.match_threshold.bits == DEFAULT_IDENTITY_MATCH_THRESHOLD,
            r.sources@.len() == 1,
            is_default_source(r.sources@[0]),
    {
        AppConfig {
            runtime: RuntimeConfig::default(),
            arena: ArenaConfig::default(),
            facemash: FacemashConfig::default(),
            identities: IdentitiesConfig::default(),
            sources: default_sources(),
        }
    }
}

/// The canonical path of the source at `i`, where it has one.
pub open spec fn canonical_at(canonical: Seq<Option<String>>, i: int) -> Option<Seq<char>> {
    if 0 <= i < canonical.len() {
        match canonical[i] {
            None => None,
            Some(path) => Some(path@),
        }
    } else {
        None
    }
}

/// `after` are the settings `before` in their usual form: without white space around the address,
/// every number bounded, every source in its usual form, and the default source where there is
/// none. `canonical` holds the canonical paths of the sources, where they have them.
pub open spec fn normalized_from(
    after: AppConfig,
    before: AppConfig,
    canonical: Seq<Option<String>>,
) -> bool {
    &&& after.runtime.bind_addr@ == bind_addr_or_default(before.runtime.bind_addr@)
    &&& after.runtime.corpus_root == before.runtime.corpus_root
    &&& after.arena.external_probability == bounded_probability(
        before.arena.external_probability,
        DEFAULT_EXTERNAL_PROBABILITY,
    )
    &&& after.arena.explore == bounded_probability(before.arena.explore, DEFAULT_ARENA_EXPLORE)
    &&& after.arena.dedup_radius == bounded_probability(before.arena.dedup_radius, DEFAULT_DEDUP_RADIUS)
    &&& after.facemash.min_face_side == bounded_face_side(before.facemash.min_face_side)
    &&& after.identities.match_threshold == bounded_threshold(before.identities.match_threshold)
    &&& if before.sources@.len() == 0 {
        after.sources@.len() == 1 && is_default_source(after.sources@[0])
    } else {
        &&& after.sources@.len() == before.sources@.len()
        &&& forall|i: int|
            0 <= i < after.sources@.len() ==> SourceConfig::normalized_from(
                #[trigger] after.sources@[i],
                before.sources@[i],
                canonical_at(canonical, i),
            )
    }
}

/// What the file system says of the source at `i`.
pub open spec fn probe_at(probes: Seq<RootProbe>, i: int) -> RootProbe {
    if 0 <= i < probes.len() {
        probes[i]
    } else {
        RootProbe { exists: false, is_dir: false }
    }
}

/// The refusal of the first source that is refused.
pub open spec fn first_refusal(sources: Seq<SourceConfig>, probes: Seq<RootProbe>, from: int) -> Result<
    (),
    ConfigError,
>
    decreases sources.len() - from,
{
    if from >= sources.len() {
        Ok(())
    } else {
        match sources[from].spec_validate(probe_at(probes, from)) {
            Ok(_) => first_refusal(sources, probes, from + 1),
            Err(error) => Err(error),
        }
    }
}

/// `r` is what becomes of settings that were read from a text: their usual form, with the
/// fingerprint of the text, or the refusal of their usual form.
pub open spec fn taken_in(
    r: Result<(AppConfig, String), ConfigError>,
    parsed: AppConfig,
    raw: Seq<u8>,
    canonical: Seq<Option<String>>,
    bind_addr_parses: bool,
    probes: Seq<RootProbe>,
) -> bool {
    exists|usual: AppConfig|
        #![trigger normalized_from(usual, parsed, canonical)]
        {
            &&& normalized_from(usual, parsed, canonical)
            &&& match usual.spec_validate(bind_addr_parses, probes) {
                Ok(_) => r matches Ok((config, fingerprint)) && config == usual && fingerprint@
                    == digest::text_digest(raw),
                Err(error) => r == Err::<(AppConfig, String), ConfigError>(error),
            }
        }
}

impl AppConfig {
    /// Copies the settings.
    pub fn duplicate(&self) -> (r: AppConfig)
        ensures
            r.runtime == self.runtime,
            r.arena == self.arena,
            r.facemash == self.facemash,
            r.identities == self.identities,
            r.sources@ == self.sources@,
    {
        let mut sources: Vec<SourceConfig> = Vec::new();
        let mut i: usize = 0;
        while i < self.sources.len()
            invariant
                i <= self.sources.len(),
                sources@ == self.sources@.take(i as int),
            decreases self.sources.len() - i,
        {
            sources.push(self.sources[i].clone());
            assert(self.sources@.take(i + 1) =~= self.sources@.take(i as int).push(
                self.sources@[i as int],
            ));
            i += 1;
        }
        assert(self.sources@.take(i as int) =~= self.sources@);
        AppConfig {
            runtime: self.runtime.clone(),
            arena: self.arena,
            facemash: self.facemash,
            identities: self.identities,
            sources,
        }
    }

    /// The settings in their usual form; `canonical` holds the canonical paths of the sources, in
    /// order, where they have them.
    pub fn normalized(self, canonical: &Vec<Option<String>>) -> (r: AppConfig)
        ensures
            normalized_from(r, self, canonical@),
    {
        let bind_addr = normalize_bind_addr(self.runtime.bind_addr.as_str());
        let mut sources: Vec<SourceConfig> = Vec::new();
        if self.sources.len() == 0 {
            sources = default_sources();
            let mut source = sources.remove(0);
            proof {
                reveal_strlit("s");
                assert(lowered("s"@) =~= "s"@);
            }
            source.normalize(None);
            sources.push(source);
        } else {
            let mut i: usize = 0;
            while i < self.sources.len()
                invariant
                    i <= self.sources.len(),
                    sources.len() == i,
                    forall|j: int|
                        0 <= j < i ==> SourceConfig::normalized_from(
                            #[trigger] sources@[j],
                            self.sources@[j],
                            canonical_at(canonical@, j),
                        ),
                decreases self.sources.len() - i,
            {
                let mut source = self.sources[i].clone();
                let path = if i < canonical.len() {
                    match &canonical[i] {
                        None => None,
                        Some(path) => Some(path.clone()),
                    }
                } else {
                    None
                };
                source.normalize(path);
                sources.push(source);
                i += 1;
            }
        }
        AppConfig {
            runtime: RuntimeConfig { bind_addr, corpus_root: self.runtime.corpus_root },
            arena: ArenaConfig {
                external_probability: clamp_external_probability(self.arena.external_probability),
                explore: clamp_arena_explore(self.arena.explore),
                dedup_radius: clamp_dedup_radius(self.arena.dedup_radius),
            },
            facemash: FacemashConfig {
                min_face_side: clamp_facemash_min_face_side(self.facemash.min_face_side),
            },
            identities: IdentitiesConfig {
                match_threshold: clamp_identity_match_threshold(self.identities.match_threshold),
            },
            sources,
        }
    }

    /// What `validate` returns.
    pub open spec fn spec_validate(self, bind_addr_parses: bool, probes: Seq<RootProbe>) -> Result<
        (),
        ConfigError,
    > {
        if !bind_addr_parses {
            Err(ConfigError::InvalidBindAddr { bind_addr: self.runtime.bind_addr })
        } else if self.runtime.corpus_root matches Some(root) && root@.len() == 0 {
            Err(ConfigError::EmptyCorpusRoot)
        } else {
            first_refusal(self.sources@, probes, 0)
        }
    }

    /// Refuses settings with an address that does not parse, an empty path of the collection or a
    /// source that is refused. `probes` holds what the file system says of each source.
    pub fn validate(&self, bind_addr_parses: bool, probes: &Vec<RootProbe>) -> (r: Result<
        (),
        ConfigError,
    >)
        ensures
            r == self.spec_validate(bind_addr_parses, probes@),
    {
        if !bind_addr_parses {
            return Err(ConfigError::InvalidBindAddr { bind_addr: self.runtime.bind_addr.clone() });
        }
        match &self.runtime.corpus_root {
            None => {},
            Some(root) => {
                if root.as_str().is_empty() {
                    return Err(ConfigError::EmptyCorpusRoot);
                }
            },
        }
        let mut i: usize = 0;
        while i < self.sources.len()
            invariant
                i <= self.sources.len(),
                first_refusal(self.sources@, probes@, 0) == first_refusal(
                    self.sources@,
                    probes@,
                    i as int,
                ),
                self.spec_validate(bind_addr_parses, probes@) == first_refusal(self.sources@, probes@, 0),
            decreases self.sources.len() - i,
        {
            let probe = if i < probes.len() {
                probes[i]
            } else {
                RootProbe { exists: false, is_dir: false }
            };
            match self.sources[i].validate(probe) {
                Ok(_) => {},
                Err(error) => {
                    return Err(error);
                },
            }
            i += 1;
        }
        Ok(())
    }

    /// Takes read settings in: in their usual form, with the fingerprint of the text that they were
    /// read from, unless they are refused. Whether the address parses and what the file system says
    /// of the sources is said of the settings in their usual form.
    pub fn parse(
        parsed: AppConfig,
        raw: &str,
        canonical: &Vec<Option<String>>,
        bind_addr_parses: bool,
        probes: &Vec<RootProbe>,
    ) -> (r: Result<(AppConfig, String), ConfigError>)
        ensures
            taken_in(r, parsed, raw.spec_bytes(), canonical@, bind_addr_parses, probes@),
    {
        let usual = parsed.normalized(canonical);
        match usual.validate(bind_addr_parses, probes) {
            Ok(_) => {},
            Err(error) => {
                return Err(error);
            },
        }
        let fingerprint = digest::digest_text(raw);
        Ok((usual, fingerprint))
    }

    /// How likely an outside image is drawn.
    pub fn external_probability(&self) -> (r: Scalar)
        ensures
            r == bounded_probability(self.arena.external_probability, DEFAULT_EXTERNAL_PROBABILITY),
    {
        clamp_external_probability(self.arena.external_probability)
    }

    /// How close two images are that count as copies.
    pub fn dedup_radius(&self) -> (r: Scalar)
        ensures
            r == bounded_probability(self.arena.dedup_radius, DEFAULT_DEDUP_RADIUS),
    {
        clamp_dedup_radius(self.arena.dedup_radius)
    }

    /// How strongly little known images are drawn.
    pub fn arena_explore(&self) -> (r: Scalar)
        ensures
            r == bounded_probability(self.arena.explore, DEFAULT_ARENA_EXPLORE),
    {
        clamp_arena_explore(self.arena.explore)
    }

    /// The address to listen on.
    pub fn bind_addr(&self) -> (r: &str)
        ensures
            r@ == self.runtime.bind_addr@,
    {
        self.runtime.bind_addr.as_str()
    }

    /// The smallest side of a face that is compared.
    pub fn facemash_min_face_side(&self) -> (r: Scalar)
        ensures
            r == bounded_face_side(self.facemash.min_face_side),
    {
        clamp_facemash_min_face_side(self.facemash.min_face_side)
    }

    /// How similar two faces are that may be one subject.
    pub fn identity_match_threshold(&self) -> (r: Scalar)
        ensures
            r == bounded_threshold(self.identities.match_threshold),
    {
        clamp_identity_match_threshold(self.identities.match_threshold)
    }

    /// The path of the collection.
    pub fn corpus_root(&self) -> (r: Option<&String>)
        ensures
            r == match self.runtime.corpus_root {
                None => None,
                Some(root) => Some(&root),
            },
    {
        self.runtime.corpus_root.as_ref()
    }

    /// Sets how likely an outside image is drawn.
    pub fn shove_external_probability(&mut self, probability: Scalar)
        ensures
            *final(self) == (AppConfig {
                arena: ArenaConfig {
                    external_probability: bounded_probability(probability, DEFAULT_EXTERNAL_PROBABILITY),
                    ..old(self).arena
                },
                ..*old(self)
            }),
    {
        self.arena.external_probability = clamp_external_probability(probability);
    }

    /// Sets how strongly little known images are drawn.
    pub fn shove_arena_explore(&mut self, explore: Scalar)
        ensures
            *final(self) == (AppConfig {
                arena: ArenaConfig {
                    explore: bounded_probability(explore, DEFAULT_ARENA_EXPLORE),
                    ..old(self).arena
                },
                ..*old(self)
            }),
    {
        self.arena.explore = clamp_arena_explore(explore);
    }

    /// Sets how close two images are that count as copies.
    pub fn shove_dedup_radius(&mut self, radius: Scalar)
        ensures
            *final(self) == (AppConfig {
                arena: ArenaConfig {
                    dedup_radius: bounded_probability(radius, DEFAULT_DEDUP_RADIUS),
                    ..old(self).arena
                },
                ..*old(self)
            }),
    {
        self.arena.dedup_radius = clamp_dedup_radius(radius);
    }

    /// Sets the address to listen on.
    pub fn shove_bind_addr(&mut self, bind_addr: &str)
        ensures
            final(self).runtime.bind_addr@ == bind_addr_or_default(bind_addr@),
            final(self).runtime.corpus_root == old(self).runtime.corpus_root,
            *final(self) == (AppConfig { runtime: final(self).runtime, ..*old(self) }),
    {
        self.runtime.bind_addr = normalize_bind_addr(bind_addr);
    }

    /// Sets the smallest side of a face that is compared.
    pub fn shove_facemash_min_face_side(&mut self, min_face_side: Scalar)
        ensures
            *final(self) == (AppConfig {
                facemash: FacemashConfig { min_face_side: bounded_face_side(min_face_side) },
                ..*old(self)
            }),
    {
        self.facemash.min_face_side = clamp_facemash_min_face_side(min_face_side);
    }

    /// Sets how similar two faces are that may be one subject.
    pub fn shove_identity_match_threshold(&mut self, threshold: Scalar)
        ensures
            *final(self) == (AppConfig {
                identities: IdentitiesConfig { match_threshold: bounded_threshold(threshold) },
                ..*old(self)
            }),
    {
        self.identities.match_threshold = clamp_identity_match_threshold(threshold);
    }

    /// Sets the path of the collection.
    pub fn shove_corpus_root(&mut self, root: String)
        ensures
            *final(self) == (AppConfig {
                runtime: RuntimeConfig {
                    corpus_root: Some(root),
                    bind_addr: old(self).runtime.bind_addr,
                },
                ..*old(self)
            }),
    {
        self.runtime.corpus_root = Some(root);
    }
}

/// The settings that take the place of `current` when `candidate` was read while the application
/// runs: where the address or the path of the collection differ, both stay as they are.
pub fn live_settings(current: &RuntimeConfig, candidate: AppConfig) -> (r: AppConfig)
    ensures
        r.arena == candidate.arena,
        r.facemash == candidate.facemash,
        r.identities == candidate.identities,
        r.sources == candidate.sources,
        r.runtime == if keeps_runtime(*current, candidate.runtime) {
            candidate.runtime
        } else {
            *current
        },
{
    let same_root = match (&candidate.runtime.corpus_root, &current.corpus_root) {
        (None, None) => true,
        (Some(a), Some(b)) => *a == *b,
        _ => false,
    };
    if candidate.runtime.bind_addr == current.bind_addr && same_root {
        candidate
    } else {
        let mut candidate = candidate;
        candidate.runtime = current.clone();
        candidate
    }
}

/// Both hold the same address and the same path of the collection.
pub open spec fn keeps_runtime(current: RuntimeConfig, candidate: RuntimeConfig) -> bool {
    &&& candidate.bind_addr@ == current.bind_addr@
    &&& match (candidate.corpus_root, current.corpus_root) {
        (None, None) => true,
        (Some(a), Some(b)) => a@ == b@,
        _ => false,
    }
}

/// The name of the file that settings are written to before it takes the place of the file `stem`.
pub fn temporary_name(stem: &str, mark: &str) -> (r: String)
    ensures
        r@ == "."@ + stem@ + "."@ + mark@ + ".tmp"@,
{
    let mut name = ".".to_owned();
    name.append(stem);
    name.append(".");
    name.append(mark);
    name.append(".tmp");
    name
}

proof fn lemma_trimmed_ends(s: Seq<char>)
    ensures
        trimmed(s).len() > 0 ==> !is_space(trimmed(s)[0]) && !is_space(trimmed(s).last()),
        trimmed(trimmed(s)) == trimmed(s),
    decreases s.len(),
{
    if s.len() > 0 {
        if is_space(s[0]) {
            lemma_trimmed_ends(s.skip(1));
        } else if is_space(s.last()) {
            lemma_trimmed_ends(s.drop_last());
        }
    }
}

/// Settings in their usual form stay as they are when they are written in it once more, as long as
/// the canonical path of a canonical path is itself.
pub proof fn normalizing_twice_is_normalizing_once(
    raw: AppConfig,
    once: AppConfig,
    twice: AppConfig,
    canonical: Seq<Option<String>>,
    again: Seq<Option<String>>,
)
    requires
        normalized_from(once, raw, canonical),
        normalized_from(twice, once, again),
        forall|i: int|
            0 <= i < once.sources@.len() ==> canonical_already(
                #[trigger] once.sources@[i],
                canonical_at(again, i),
            ),
    ensures
        same_settings(twice, once),
{
    lemma_trimmed_ends(raw.runtime.bind_addr@);
    reveal_strlit("127.0.0.1:8788");
    assert(trimmed("127.0.0.1:8788"@) == "127.0.0.1:8788"@);
    assert forall|i: int| 0 <= i < once.sources@.len() implies same_source(
        #[trigger] twice.sources@[i],
        once.sources@[i],
    ) by {
        let a = once.sources@[i];
        assert(SourceConfig::normalized_from(twice.sources@[i], a, canonical_at(again, i)));
        if raw.sources@.len() > 0 {
            assert(SourceConfig::normalized_from(a, raw.sources@[i], canonical_at(canonical, i)));
        }
        match a.upstream {
            UpstreamSource::FourChanBoard(board) => {
                if raw.sources@.len() > 0 {
                    let before = raw.sources@[i].upstream->FourChanBoard_0;
                    assert(lowered(lowered(before.board@)) =~= lowered(before.board@));
                } else {
                    reveal_strlit("s");
                    assert(lowered("s"@) =~= "s"@);
                }
            },
            UpstreamSource::LocalDirectory(source) => {
                assert(canonical_already(a, canonical_at(again, i)));
            },
        }
    }
}

/// The canonical path of the source, where it has one, is the path that it holds.
pub open spec fn canonical_already(source: SourceConfig, canonical: Option<Seq<char>>) -> bool {
    match source.upstream {
        UpstreamSource::FourChanBoard(_) => true,
        UpstreamSource::LocalDirectory(directory) => canonical is None || canonical == Some(
            directory.root@,
        ),
    }
}

/// Both sources hold the same.
pub open spec fn same_source(a: SourceConfig, b: SourceConfig) -> bool {
    &&& a.weight == b.weight
    &&& a.import_policy == b.import_policy
    &&& a.scan_interval_seconds == b.scan_interval_seconds
    &&& match (a.upstream, b.upstream) {
        (UpstreamSource::FourChanBoard(x), UpstreamSource::FourChanBoard(y)) => {
            x.board@ == y.board@ && x.content == y.content && x.harvest == y.harvest && x.filters
                == y.filters
        },
        (UpstreamSource::LocalDirectory(x), UpstreamSource::LocalDirectory(y)) => {
            x.root@ == y.root@ && x.recurse == y.recurse && x.filters == y.filters
        },
        _ => false,
    }
}

/// Both settings hold the same.
pub open spec fn same_settings(a: AppConfig, b: AppConfig) -> bool {
    &&& a.runtime.bind_addr@ == b.runtime.bind_addr@
    &&& a.runtime.corpus_root == b.runtime.corpus_root
    &&& a.arena == b.arena
    &&& a.facemash == b.facemash
    &&& a.identities == b.identities
    &&& a.sources@.len() == b.sources@.len()
    &&& forall|i: int|
        0 <= i < b.sources@.len() ==> same_source(#[trigger] a.sources@[i], b.sources@[i])
}

proof fn lemma_same_settings_are_accepted(
    a: AppConfig,
    b: AppConfig,
    probes: Seq<RootProbe>,
    from: int,
)
    requires
        same_settings(a, b),
        0 <= from <= b.sources@.len(),
    ensures
        first_refusal(a.sources@, probes, from) is Ok <==> first_refusal(b.sources@, probes, from) is Ok,
    decreases b.sources@.len() - from,
{
    if from < b.sources@.len() {
        assert(same_source(a.sources@[from], b.sources@[from]));
        lemma_same_settings_are_accepted(a, b, probes, from + 1);
    }
}

/// Settings are written in their usual form. Where they are accepted, reading them back gives the
/// same settings, with the fingerprint of the text that was written; where they are not, reading
/// them back fails. The canonical path of a canonical path is taken to be itself.
pub proof fn written_settings_are_read_back(
    settings: AppConfig,
    written: AppConfig,
    canonical: Seq<Option<String>>,
    again: Seq<Option<String>>,
    raw: Seq<u8>,
    bind_addr_parses: bool,
    probes: Seq<RootProbe>,
    r: Result<(AppConfig, String), ConfigError>,
)
    requires
        normalized_from(written, settings, canonical),
        forall|i: int|
            0 <= i < written.sources@.len() ==> canonical_already(
                #[trigger] written.sources@[i],
                canonical_at(again, i),
            ),
        taken_in(r, written, raw, again, bind_addr_parses, probes),
    ensures
        r is Ok <==> written.spec_validate(bind_addr_parses, probes) is Ok,
        r matches Ok((read, fingerprint)) ==> same_settings(read, written) && fingerprint@
            == digest::text_digest(raw),
{
    let usual = choose|usual: AppConfig|
        #![trigger normalized_from(usual, written, again)]
        {
            &&& normalized_from(usual, written, again)
            &&& match usual.spec_validate(bind_addr_parses, probes) {
                Ok(_) => r matches Ok((config, fingerprint)) && config == usual && fingerprint@
                    == digest::text_digest(raw),
                Err(error) => r == Err::<(AppConfig, String), ConfigError>(error),
            }
        };
    normalizing_twice_is_normalizing_once(settings, written, usual, canonical, again);
    lemma_same_settings_are_accepted(usual, written, probes, 0);
}

/// Settings in their usual form are never refused for the weight of a source.
pub proof fn usual_weights_are_accepted(
    raw: AppConfig,
    usual: AppConfig,
    canonical: Seq<Option<String>>,
    i: int,
    probe: RootProbe,
)
    requires
        normalized_from(usual, raw, canonical),
        0 <= i < usual.sources@.len(),
    ensures
        usual.sources@[i].spec_validate(probe) == usual.sources@[i].upstream.spec_validate(probe),
{
    if raw.sources@.len() > 0 {
        assert(SourceConfig::normalized_from(
            usual.sources@[i],
            raw.sources@[i],
            canonical_at(canonical, i),
        ));
    }
}

} // verus!
