//! The build command's decision logic: option validation, profile and
//! output-path selection, and the packaging data of a built binary — its
//! architecture, read out of the object file, and its digest.  Running
//! cargo, the toolchain checks and the writing of archives stay with the
//! surrounding tooling.

use vstd::prelude::*;

use crate::cargo::seq_contains_str;

verus! {

/// Errors raised while building and packaging.
#[derive(Debug)]
pub enum BuildError {
    InvalidTargetOptions,
    InvalidCompilerOption,
    ZigMissing,
    FunctionBinaryMissing(String),
    BinaryMissing(String, String),
    InvalidBinaryData,
    InvalidBinaryArchitecture(BinaryArch),
    UnsupportedTarget(String),
}

/// The architectures a binary can be built for, as far as deployment cares:
/// the two the platform runs, and everything else.
#[derive(Clone, Copy, Debug, PartialEq, Eq, Structural)]
pub enum BinaryArch {
    Arm64,
    X86_64,
    Other,
}

/// The target triple of the platform's ARM machines.
pub const TARGET_ARM: &'static str = "aarch64-unknown-linux-gnu";

/// The target triple of the platform's x86-64 machines.
pub const TARGET_X86_64: &'static str = "x86_64-unknown-linux-gnu";

/// The format a built function is packaged into.
#[derive(Clone, Copy, Debug, PartialEq, Eq, Structural)]
pub enum OutputFormat {
    Binary,
    Zip,
}

impl OutputFormat {
    /// The format's canonical spelling.
    pub fn as_str(&self) -> (r: &str)
        ensures
            self is Binary ==> r@ == "Binary"@,
            self is Zip ==> r@ == "Zip"@,
    {
        match self {
            OutputFormat::Binary => "Binary",
            OutputFormat::Zip => "Zip",
        }
    }

    /// Reads a format from its name, ignoring ASCII case.
    pub fn parse(s: &str) -> (r: Option<OutputFormat>)
        ensures
            crate::lambda::ascii_lower(s@) == "binary"@ ==> r == Some(OutputFormat::Binary),
            crate::lambda::ascii_lower(s@) == "zip"@ ==> r == Some(OutputFormat::Zip),
            crate::lambda::ascii_lower(s@) != "binary"@ && crate::lambda::ascii_lower(s@)
                != "zip"@ ==> r is None,
    {
        proof {
            reveal_strlit("binary");
            reveal_strlit("zip");
            assert("binary"@.len() == 6);
            assert("zip"@.len() == 3);
        }
        if crate::lambda::eq_ignore_ascii_case(s, "binary") {
            Some(OutputFormat::Binary)
        } else if crate::lambda::eq_ignore_ascii_case(s, "zip") {
            Some(OutputFormat::Zip)
        } else {
            None
        }
    }
}

/// The build command's options.  The flattened cargo options are reduced to
/// the fields this crate's decisions read.
pub struct Build {
    pub output_format: OutputFormat,
    pub lambda_dir: Option<String>,
    pub arm64: bool,
    pub extension: bool,
    pub target: Vec<String>,
    pub profile: Option<String>,
    pub release: bool,
    pub bin: Vec<String>,
}

impl Build {
    /// The ARM shortcut and an explicit target cannot be combined.
    pub fn validate_target_options(&self) -> (r: Result<(), BuildError>)
        ensures
            self.arm64 && self.target@.len() > 0 ==> r == Err::<(), BuildError>(
                BuildError::InvalidTargetOptions,
            ),
            !(self.arm64 && self.target@.len() > 0) ==> r is Ok,
    {
        if self.arm64 && self.target.len() > 0 {
            Err(BuildError::InvalidTargetOptions)
        } else {
            Ok(())
        }
    }

    /// The first binary asked for on the command line that the project does
    /// not have, if any.
    pub fn missing_binary(&self, binaries: &Vec<String>) -> (r: Option<String>)
        ensures
            r matches Some(b) ==> exists|i: int|
                0 <= i < self.bin@.len() && #[trigger] self.bin@[i]@ == b@ && !seq_contains_str(
                    binaries@,
                    b@,
                ),
            r is None ==> forall|i: int|
                0 <= i < self.bin@.len() ==> seq_contains_str(binaries@, #[trigger] self.bin@[i]@),
    {
        let n = self.bin.len();
        let mut i: usize = 0;
        while i < n
            invariant
                i <= n,
                n == self.bin@.len(),
                forall|j: int| 0 <= j < i ==> seq_contains_str(binaries@, #[trigger] self.bin@[j]@),
            decreases n - i,
        {
            if !crate::cargo::vec_contains_str(binaries, &self.bin[i]) {
                return Some(self.bin[i].clone());
            }
            i += 1;
        }
        None
    }
}

/// The target triple a build compiles for: the ARM shortcut wins, then an
/// explicitly named target, then the host when the host is one of the
/// platform's own triples; any other host builds for x86-64.
pub fn select_target(arm64: bool, target: &Vec<String>, host: &String) -> (r: String)
    ensures
        arm64 ==> r@ == TARGET_ARM@,
        !arm64 && target@.len() > 0 ==> r@ == target@[0]@,
        !arm64 && target@.len() == 0 && (host@ == TARGET_ARM@ || host@ == TARGET_X86_64@) ==> r@
            == host@,
        !arm64 && target@.len() == 0 && host@ != TARGET_ARM@ && host@ != TARGET_X86_64@ ==> r@
            == TARGET_X86_64@,
{
    if arm64 {
        return String::from_str(TARGET_ARM);
    }
    if target.len() > 0 {
        return target[0].clone();
    }
    let arm = String::from_str(TARGET_ARM);
    let x86 = String::from_str(TARGET_X86_64);
    if *host == arm || *host == x86 {
        host.clone()
    } else {
        String::from_str(TARGET_X86_64)
    }
}

/// The profile directory a build lands in: the dev and test profiles build
/// into `debug`, release and bench into `release`, any other named profile
/// into a directory of its own name, and an unnamed build goes by the
/// release flag.
pub fn select_profile<'a>(profile: &'a Option<String>, release: bool) -> (r: &'a str)
    ensures
        match profile {
            Some(p) => (p@ == "dev"@ || p@ == "test"@) ==> r@ == "debug"@,
            None => true,
        },
        match profile {
            Some(p) => (p@ == "release"@ || p@ == "bench"@) ==> r@ == "release"@,
            None => true,
        },
        match profile {
            Some(p) => (p@ != "dev"@ && p@ != "test"@ && p@ != "release"@ && p@ != "bench"@)
                ==> r@ == p@,
            None => true,
        },
        profile is None && release ==> r@ == "release"@,
        profile is None && !release ==> r@ == "debug"@,
{
    proof {
        reveal_strlit("dev");
        reveal_strlit("test");
        reveal_strlit("release");
        reveal_strlit("bench");
        reveal_strlit("debug");
        assert("dev"@.len() == 3);
        assert("test"@.len() == 4);
        assert("release"@.len() == 7);
        assert("bench"@.len() == 5);
        assert("debug"@.len() == 5);
        assert("bench"@[0] == 'b' && "debug"@[0] == 'd');
    }
    match profile {
        Some(p) => {
            let dev = String::from_str("dev");
            let test = String::from_str("test");
            let release_s = String::from_str("release");
            let bench = String::from_str("bench");
            if *p == dev || *p == test {
                "debug"
            } else if *p == release_s || *p == bench {
                "release"
            } else {
                p.as_str()
            }
        },
        None => if release {
            "release"
        } else {
            "debug"
        },
    }
}

/// The index of the first space of `s` at or after `i`, or the length of
/// `s` when it has none there.
pub open spec fn first_space_from(s: Seq<char>, i: int) -> int
    decreases s.len() - i,
{
    if i < 0 || i >= s.len() {
        s.len() as int
    } else if s[i] == ' ' {
        i
    } else {
        first_space_from(s, i + 1)
    }
}

/// `s` cut at every single space: the segments between the spaces, kept
/// even when empty, as a compiler override variable is read.
pub open spec fn spec_split_spaces(s: Seq<char>) -> Seq<Seq<char>>
    decreases s.len(),
{
    let i = first_space_from(s, 0);
    if 0 <= i < s.len() {
        seq![s.subrange(0, i)] + spec_split_spaces(s.skip(i + 1))
    } else {
        seq![s]
    }
}

/// Cuts `s` at every space.
pub fn split_spaces(s: &str) -> (r: Vec<String>)
    ensures
        crate::cargo::string_views(r@) == spec_split_spaces(s@),
{
    let n = s.unicode_len();
    let mut r: Vec<String> = Vec::new();
    let mut start: usize = 0;
    let mut i: usize = 0;
    proof {
        assert(s@.skip(0) =~= s@);
        assert(crate::cargo::string_views(r@) + spec_split_spaces(s@.skip(0))
            =~= spec_split_spaces(s@));
    }
    while i < n
        invariant
            start <= i <= n,
            n == s@.len(),
            forall|j: int| start <= j < i ==> s@[j] != ' ',
            crate::cargo::string_views(r@) + spec_split_spaces(s@.skip(start as int))
                == spec_split_spaces(s@),
        decreases n - i,
    {
        if s.get_char(i) == ' ' {
            r.push(String::from_str(s.substring_char(start, i)));
            proof {
                let rest = s@.skip(start as int);
                assert(first_space_from(rest, 0) == i - start) by {
                    lemma_first_space_prefix(s@, start as int, i as int);
                }
                assert(rest.subrange(0, i - start) =~= s@.subrange(start as int, i as int));
                assert(rest.skip(i - start + 1) =~= s@.skip(i + 1 as int));
                assert(crate::cargo::string_views(r@) + spec_split_spaces(
                    s@.skip(i + 1 as int),
                ) =~= spec_split_spaces(s@)) by {
                    assert(spec_split_spaces(rest) =~= seq![rest.subrange(0, i - start)]
                        + spec_split_spaces(rest.skip(i - start + 1)));
                    assert(crate::cargo::string_views(r@) =~= crate::cargo::string_views(
                        r@.drop_last(),
                    ).push(s@.subrange(start as int, i as int)));
                }
            }
            start = i + 1;
        }
        i += 1;
    }
    r.push(String::from_str(s.substring_char(start, n)));
    proof {
        let rest = s@.skip(start as int);
        assert(first_space_from(rest, 0) == rest.len()) by {
            lemma_first_space_prefix(s@, start as int, n as int);
        }
        assert(spec_split_spaces(rest) =~= seq![rest]);
        assert(rest =~= s@.subrange(start as int, n as int));
        assert(crate::cargo::string_views(r@) =~= crate::cargo::string_views(r@.drop_last()).push(
            rest,
        ));
        assert(crate::cargo::string_views(r@) =~= spec_split_spaces(s@));
    }
    r
}

/// When `s` holds no space at positions `start` to `stop`, the first space
/// of the suffix from `start` is wherever `stop` points: at a space of `s`,
/// or past the end.
proof fn lemma_first_space_prefix(s: Seq<char>, start: int, stop: int)
    requires
        0 <= start <= stop <= s.len(),
        forall|j: int| start <= j < stop ==> s[j] != ' ',
        stop < s.len() ==> s[stop] == ' ',
    ensures
        first_space_from(s.skip(start), 0) == stop - start,
    decreases stop - start,
{
    let rest = s.skip(start);
    if start == stop {
        if stop < s.len() {
            assert(rest[0] == ' ');
        }
    } else {
        assert(rest[0] != ' ');
        lemma_first_space_prefix(s, start + 1, stop);
        assert(s.skip(start + 1) =~= rest.skip(1));
        lemma_first_space_step(rest);
    }
}

/// Skipping one non-space character moves the first space one step closer.
proof fn lemma_first_space_step(s: Seq<char>)
    requires
        s.len() > 0,
        s[0] != ' ',
    ensures
        first_space_from(s, 0) == 1 + first_space_from(s.skip(1), 0),
{
    lemma_first_space_shift(s, 1);
}

/// The first space at or after `i` sits one behind the first space of the
/// sequence with its first `i` characters cut off.
proof fn lemma_first_space_shift(s: Seq<char>, i: int)
    requires
        0 <= i <= s.len(),
    ensures
        first_space_from(s, i) == i + first_space_from(s.skip(i), 0),
    decreases s.len() - i,
{
    let rest = s.skip(i);
    if i == s.len() {
    } else if s[i] == ' ' {
        assert(rest[0] == ' ');
    } else {
        assert(rest[0] != ' ');
        lemma_first_space_shift(s, i + 1);
        assert(s.skip(i + 1) =~= rest.skip(1));
        lemma_first_space_shift(rest, 1);
    }
}

/// `base` and `name`, joined by one separator.
pub fn join_path(base: &str, name: &str) -> (r: String)
    ensures
        r@ == base@ + seq!['/'] + name@,
{
    let mut r = String::from_str(base);
    r.append("/");
    proof {
        reveal_strlit("/");
        assert("/"@ =~= seq!['/']);
    }
    r.append(name);
    r
}

/// Where a built binary is placed and under which name: extensions gather
/// under one `extensions` directory and keep their names, functions get a
/// directory of their own name holding a file called `bootstrap`.
pub fn output_location(extension: bool, lambda_dir: &Option<String>, name: &String) -> (r: (
    String,
    String,
))
    ensures
        extension ==> r.0@ == spec_lambda_dir(lambda_dir) + seq!['/'] + "extensions"@ && r.1@
            == name@,
        !extension ==> r.0@ == spec_lambda_dir(lambda_dir) + seq!['/'] + name@ && r.1@
            == "bootstrap"@,
{
    let base = match lambda_dir {
        Some(d) => d.clone(),
        None => {
            proof {
                reveal_strlit("target/lambda");
            }
            String::from_str("target/lambda")
        },
    };
    if extension {
        (join_path(base.as_str(), "extensions"), name.clone())
    } else {
        (join_path(base.as_str(), name.as_str()), String::from_str("bootstrap"))
    }
}

/// The directory lambda outputs land in: the one given, or `target/lambda`.
pub open spec fn spec_lambda_dir(lambda_dir: &Option<String>) -> Seq<char> {
    match lambda_dir {
        Some(d) => d@,
        None => "target/lambda"@,
    }
}

/// What `find_binary_archive` must look at and produce for one function or
/// extension.
pub struct ArchivePlan {
    pub bootstrap_dir: String,
    pub binary_name: String,
    pub binary_path: String,
    pub parent: Option<String>,
    pub zipped_path: String,
    pub build_subcommand: &'static str,
}

/// Lays out the search for a packaged binary: where its file must already
/// sit, what the archive must be called, which directory entry the archive
/// holds, and which build command to suggest when the file is missing.
pub fn find_binary_archive_plan(name: &String, base_dir: &Option<String>, is_extension: bool) -> (r:
    ArchivePlan)
    ensures
        is_extension ==> {
            &&& r.bootstrap_dir@ == spec_base_dir(base_dir) + seq!['/'] + "extensions"@
            &&& r.binary_name@ == name@
            &&& r.parent matches Some(p) && p@ == "extensions"@
            &&& r.build_subcommand@ == "build --extension"@
        },
        !is_extension ==> {
            &&& r.bootstrap_dir@ == spec_base_dir(base_dir) + seq!['/'] + name@
            &&& r.binary_name@ == "bootstrap"@
            &&& r.parent is None
            &&& r.build_subcommand@ == "build"@
        },
        r.binary_path@ == r.bootstrap_dir@ + seq!['/'] + r.binary_name@,
        r.zipped_path@ == r.bootstrap_dir@ + seq!['/'] + r.binary_name@ + ".zip"@,
{
    let base = match base_dir {
        Some(d) => d.clone(),
        None => {
            proof {
                reveal_strlit("target/lambda");
            }
            String::from_str("target/lambda")
        },
    };
    let (bootstrap_dir, binary_name, parent, build_subcommand): (
        String,
        String,
        Option<String>,
        &'static str,
    ) = if is_extension {
        (
            join_path(base.as_str(), "extensions"),
            name.clone(),
            Some(String::from_str("extensions")),
            "build --extension",
        )
    } else {
        (join_path(base.as_str(), name.as_str()), String::from_str("bootstrap"), None, "build")
    };
    let binary_path = join_path(bootstrap_dir.as_str(), binary_name.as_str());
    let mut zipped_path = binary_path.clone();
    zipped_path.append(".zip");
    ArchivePlan { bootstrap_dir, binary_name, binary_path, parent, zipped_path, build_subcommand }
}

/// The directory packaged binaries sit under: the one given, or
/// `target/lambda`.
pub open spec fn spec_base_dir(base_dir: &Option<String>) -> Seq<char> {
    match base_dir {
        Some(d) => d@,
        None => "target/lambda"@,
    }
}

/// The name of the file inside a zip archive: under its parent directory
/// when the archive carries one, bare otherwise.
pub fn archive_entry_name(parent: &Option<String>, name: &String) -> (r: String)
    ensures
        parent matches Some(p) ==> r@ == p@ + seq!['/'] + name@,
        parent is None ==> r@ == name@,
{
    match parent {
        Some(p) => join_path(p.as_str(), name.as_str()),
        None => name.clone(),
    }
}

/// The SHA-256 digest of a byte string.
pub uninterp spec fn sha256_of(data: Seq<u8>) -> Seq<u8>;

/// Relies on `sha2::Sha256` (through `digest::Digest::digest`): the digest
/// depends on the input bytes alone and is 32 bytes long.
#[verifier::external_body]
fn sha256_digest(data: &[u8]) -> (r: Vec<u8>)
    ensures
        r@ == sha256_of(data@),
        r@.len() == 32,
{
    <sha2::Sha256 as sha2::Digest>::digest(data).to_vec()
}

/// The architecture a binary was built for, as read out of its object file:
/// nothing when the bytes do not parse as an object file at all.
pub uninterp spec fn arch_of(data: Seq<u8>) -> Option<BinaryArch>;

/// Relies on `object::read::File::parse` and its `architecture` method: both
/// depend on the input bytes alone.
#[verifier::external_body]
fn detect_binary_arch(data: &[u8]) -> (r: Option<BinaryArch>)
    ensures
        r == arch_of(data@),
{
    match object::read::File::parse(data) {
        Err(_) => None,
        Ok(file) => Some(match object::read::Object::architecture(&file) {
            object::Architecture::Aarch64 => BinaryArch::Arm64,
            object::Architecture::X86_64 => BinaryArch::X86_64,
            _ => BinaryArch::Other,
        }),
    }
}

/// The code point of the uppercase hexadecimal digit for `n`.
pub open spec fn hex_code(n: u8) -> u32
    recommends
        n < 16,
{
    if n < 10 {
        (48 + n) as u32
    } else {
        (55 + n) as u32
    }
}

/// True when `s` spells `bytes` in uppercase hexadecimal, two digits per
/// byte.
pub open spec fn is_hex_upper(bytes: Seq<u8>, s: Seq<char>) -> bool {
    &&& s.len() == 2 * bytes.len()
    &&& forall|i: int|
        0 <= i < bytes.len() ==> (#[trigger] s[2 * i]) as u32 == hex_code(bytes[i] / 16) && s[2 * i
            + 1] as u32 == hex_code(bytes[i] % 16)
}

/// One uppercase hexadecimal digit.
fn hex_digit(d: u8) -> (r: &'static str)
    requires
        d < 16,
    ensures
        r@.len() == 1,
        r@[0] as u32 == hex_code(d),
{
    proof {
        reveal_strlit("0");
        reveal_strlit("1");
        reveal_strlit("2");
        reveal_strlit("3");
        reveal_strlit("4");
        reveal_strlit("5");
        reveal_strlit("6");
        reveal_strlit("7");
        reveal_strlit("8");
        reveal_strlit("9");
        reveal_strlit("A");
        reveal_strlit("B");
        reveal_strlit("C");
        reveal_strlit("D");
        reveal_strlit("E");
        reveal_strlit("F");
    }
    match d {
        0 => "0",
        1 => "1",
        2 => "2",
        3 => "3",
        4 => "4",
        5 => "5",
        6 => "6",
        7 => "7",
        8 => "8",
        9 => "9",
        10 => "A",
        11 => "B",
        12 => "C",
        13 => "D",
        14 => "E",
        _ => "F",
    }
}

/// Spells `bytes` in uppercase hexadecimal, two digits per byte.
pub fn hex_upper(bytes: &[u8]) -> (r: String)
    ensures
        is_hex_upper(bytes@, r@),
{
    let n = bytes.len();
    let mut r = String::new();
    let mut i: usize = 0;
    while i < n
        invariant
            i <= n,
            n == bytes@.len(),
            r@.len() == 2 * i,
            forall|j: int|
                0 <= j < i ==> (#[trigger] r@[2 * j]) as u32 == hex_code(bytes@[j] / 16) && r@[2
                    * j + 1] as u32 == hex_code(bytes@[j] % 16),
        decreases n - i,
    {
        let b = bytes[i];
        r.append(hex_digit(b / 16));
        r.append(hex_digit(b % 16));
        proof {
            assert(r@[2 * i as int] as u32 == hex_code(b / 16));
            assert(r@[2 * i as int + 1] as u32 == hex_code(b % 16));
        }
        i += 1;
    }
    r
}

/// A packaged binary ready to deploy: where its archive sits, which
/// architecture it was built for, and the digest of the binary inside.
#[derive(Debug)]
pub struct BinaryArchive {
    pub architecture: String,
    pub sha256: String,
    pub path: String,
}

/// Reads what packaging must know out of a built binary's bytes: the
/// architecture name the platform uses and the binary's digest.  Bytes that
/// are no object file, or an architecture the platform does not run, are
/// errors.
pub fn binary_archive_info(data: &[u8], zipped_path: String) -> (r: Result<
    BinaryArchive,
    BuildError,
>)
    ensures
        arch_of(data@) is None ==> r == Err::<BinaryArchive, BuildError>(
            BuildError::InvalidBinaryData,
        ),
        arch_of(data@) == Some(BinaryArch::Other) ==> r == Err::<BinaryArchive, BuildError>(
            BuildError::InvalidBinaryArchitecture(BinaryArch::Other),
        ),
        arch_of(data@) == Some(BinaryArch::Arm64) ==> (r matches Ok(a) && a.architecture@
            == "arm64"@ && is_hex_upper(sha256_of(data@), a.sha256@) && a.path@ == zipped_path@),
        arch_of(data@) == Some(BinaryArch::X86_64) ==> (r matches Ok(a) && a.architecture@
            == "x86_64"@ && is_hex_upper(sha256_of(data@), a.sha256@) && a.path@ == zipped_path@),
{
    let arch = match detect_binary_arch(data) {
        None => {
            return Err(BuildError::InvalidBinaryData);
        },
        Some(BinaryArch::Arm64) => String::from_str("arm64"),
        Some(BinaryArch::X86_64) => String::from_str("x86_64"),
        Some(BinaryArch::Other) => {
            return Err(BuildError::InvalidBinaryArchitecture(BinaryArch::Other));
        },
    };
    let digest = sha256_digest(data);
    let sha256 = hex_upper(digest.as_slice());
    Ok(BinaryArchive { architecture: arch, sha256, path: zipped_path })
}

} // verus!
