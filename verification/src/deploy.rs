//! The deploy command's decision logic: option validation, resolving which
//! binary is deployed under which name, and the assembly of the dry-run
//! report.  The remote calls, and the reading of archives, stay with the
//! surrounding tooling.

use vstd::prelude::*;

use crate::cargo::{CargoMetadata, TargetFilter, comma_join, string_le, target_names_passing};
use crate::lambda::MetadataError;
use crate::package::BinaryArchive;

verus! {

/// Errors raised while preparing a deployment.
#[derive(Debug)]
pub enum DeployError {
    InvalidFile(String),
    InvalidBinaryPath(String),
    ConflictingFunctionUrlOptions,
}

/// The format the deployment report is rendered in.
#[derive(Clone, Copy, Debug, PartialEq, Eq, Structural)]
pub enum OutputFormat {
    Text,
    Json,
}

impl OutputFormat {
    /// Reads a format from its name, ignoring ASCII case.
    pub fn parse(s: &str) -> (r: Option<OutputFormat>)
        ensures
            crate::lambda::ascii_lower(s@) == "text"@ ==> r == Some(OutputFormat::Text),
            crate::lambda::ascii_lower(s@) == "json"@ ==> r == Some(OutputFormat::Json),
            crate::lambda::ascii_lower(s@) != "text"@ && crate::lambda::ascii_lower(s@) != "json"@
                ==> r is None,
    {
        proof {
            reveal_strlit("text");
            reveal_strlit("json");
            assert("text"@.len() == 4);
            assert("json"@.len() == 4);
            assert("text"@[0] == 't' && "json"@[0] == 'j');
        }
        if crate::lambda::eq_ignore_ascii_case(s, "text") {
            Some(OutputFormat::Text)
        } else if crate::lambda::eq_ignore_ascii_case(s, "json") {
            Some(OutputFormat::Json)
        } else {
            None
        }
    }
}

/// An exact copy of a vector of strings.
pub fn clone_string_vec(v: &Vec<String>) -> (r: Vec<String>)
    ensures
        r@ == v@,
{
    let n = v.len();
    let mut r: Vec<String> = Vec::new();
    let mut i: usize = 0;
    while i < n
        invariant
            i <= n,
            n == v@.len(),
            r@ == v@.subrange(0, i as int),
        decreases n - i,
    {
        r.push(v[i].clone());
        proof {
            assert(r@ =~= v@.subrange(0, i + 1 as int));
        }
        i += 1;
    }
    proof {
        assert(v@.subrange(0, n as int) =~= v@);
    }
    r
}

/// The index just after the last separator of `p`, or zero when it has
/// none: where the file name starts.
pub open spec fn file_name_start(p: Seq<char>, i: int) -> int
    decreases i,
{
    if i <= 0 || i > p.len() {
        0
    } else if p[i - 1] == '/' {
        i
    } else {
        file_name_start(p, i - 1)
    }
}

/// The last component of a separator-joined path, or nothing when the path
/// is empty or ends in a separator.
pub open spec fn spec_file_name(p: Seq<char>) -> Option<Seq<char>> {
    let s = file_name_start(p, p.len() as int);
    if s == p.len() {
        None
    } else {
        Some(p.subrange(s, p.len() as int))
    }
}

/// Everything before the last component: the directory a path's file sits
/// in (empty for a bare file name).
pub open spec fn spec_parent_dir(p: Seq<char>) -> Seq<char> {
    let s = file_name_start(p, p.len() as int);
    if s == 0 {
        Seq::empty()
    } else {
        p.subrange(0, s - 1)
    }
}

/// Finds where the file name of `s` starts: just after the last separator.
fn find_file_name_start(s: &str) -> (r: usize)
    ensures
        r == file_name_start(s@, s@.len() as int),
        r <= s@.len(),
{
    let n = s.unicode_len();
    let mut i: usize = n;
    while i > 0
        invariant
            i <= n,
            n == s@.len(),
            file_name_start(s@, n as int) == file_name_start(s@, i as int),
        decreases i,
    {
        if s.get_char(i - 1) == '/' {
            return i;
        }
        i -= 1;
    }
    i
}

/// The last component of `p`, read off a separator-joined string.
pub fn path_file_name(p: &String) -> (r: Option<String>)
    ensures
        match r {
            Some(f) => spec_file_name(p@) == Some(f@),
            None => spec_file_name(p@) is None,
        },
{
    let s = p.as_str();
    let n = s.unicode_len();
    let start = find_file_name_start(s);
    if start == n {
        None
    } else {
        Some(String::from_str(s.substring_char(start, n)))
    }
}

/// The directory part of `p`: everything before the last component.
pub fn path_parent_dir(p: &String) -> (r: String)
    ensures
        r@ == spec_parent_dir(p@),
{
    let s = p.as_str();
    let start = find_file_name_start(s);
    if start == 0 {
        String::new()
    } else {
        String::from_str(s.substring_char(0, start - 1))
    }
}

/// The deploy command's options.  The remote and per-function configuration
/// is reduced to the fields this crate's decisions read.
pub struct Deploy {
    pub lambda_dir: Option<String>,
    pub manifest_path: String,
    pub binary_name: Option<String>,
    pub binary_path: Option<String>,
    pub s3_bucket: Option<String>,
    pub extension: bool,
    pub internal: bool,
    pub compatible_runtimes: Vec<String>,
    pub output_format: OutputFormat,
    pub tag: Option<Vec<String>>,
    pub tags: Option<Vec<String>>,
    pub extra_files: Option<Vec<String>>,
    pub dry: bool,
    pub name: Option<String>,
    pub runtime: String,
    pub enable_function_url: bool,
    pub disable_function_url: bool,
}

impl Deploy {
    /// Enabling and disabling the function URL at once is an error.
    pub fn validate_function_url_options(&self) -> (r: Result<(), DeployError>)
        ensures
            self.enable_function_url && self.disable_function_url ==> r == Err::<(), DeployError>(
                DeployError::ConflictingFunctionUrlOptions,
            ),
            !(self.enable_function_url && self.disable_function_url) ==> r is Ok,
    {
        if self.enable_function_url && self.disable_function_url {
            Err(DeployError::ConflictingFunctionUrlOptions)
        } else {
            Ok(())
        }
    }

    /// The name the binary is looked up under: the explicit binary name, or
    /// the deployment name itself.
    pub fn binary_name_or_default(&self, name: &String) -> (r: String)
        ensures
            self.binary_name matches Some(b) ==> r@ == b@,
            self.binary_name is None ==> r@ == name@,
    {
        match &self.binary_name {
            Some(b) => b.clone(),
            None => name.clone(),
        }
    }

    /// The tags to apply: the comma-separated list when given, otherwise the
    /// repeated flags.
    pub fn effective_tags(&self) -> (r: Option<Vec<String>>)
        ensures
            self.tags matches Some(v) ==> (r matches Some(rv) && rv@ == v@),
            self.tags is None ==> match self.tag {
                Some(v) => r matches Some(rv) && rv@ == v@,
                None => r is None,
            },
    {
        match &self.tags {
            Some(v) => Some(clone_string_vec(v)),
            None => match &self.tag {
                Some(v) => Some(clone_string_vec(v)),
                None => None,
            },
        }
    }

    /// The deployment name and source directory when an explicit binary
    /// path was given: a directory is rejected, the name falls back to the
    /// path's file name, and the archive is built beside the binary.
    pub fn binary_path_plan(&self, bp: &String, is_dir: bool) -> (r: Result<
        (String, String),
        DeployError,
    >)
        ensures
            is_dir ==> (r matches Err(e) && e matches DeployError::InvalidFile(f) && f@ == bp@),
            !is_dir ==> match self.name {
                Some(n) => r matches Ok(p) && p.0@ == n@ && p.1@ == spec_parent_dir(bp@),
                None => match spec_file_name(bp@) {
                    Some(f) => r matches Ok(p) && p.0@ == f && p.1@ == spec_parent_dir(bp@),
                    None => r matches Err(e) && e matches DeployError::InvalidBinaryPath(fp)
                        && fp@ == bp@,
                },
            },
    {
        if is_dir {
            return Err(DeployError::InvalidFile(bp.clone()));
        }
        let name = match &self.name {
            Some(n) => n.clone(),
            None => match path_file_name(bp) {
                Some(f) => f,
                None => {
                    return Err(DeployError::InvalidBinaryPath(bp.clone()));
                },
            },
        };
        let destination = path_parent_dir(bp);
        Ok((name, destination))
    }

    /// The deployment name when no binary path was given: the explicit
    /// name, else the explicit binary name, else the project's one binary.
    pub fn resolve_deploy_name(&self, metadata: &CargoMetadata) -> (r: Result<
        String,
        MetadataError,
    >)
        ensures
            self.name matches Some(n) ==> (r matches Ok(nm) && nm@ == n@),
            self.name is None && self.binary_name is Some ==> match self.binary_name {
                Some(b) => r matches Ok(nm) && nm@ == b@,
                None => true,
            },
            self.name is None && self.binary_name is None ==> {
                let names = target_names_passing(*metadata, TargetFilter::Bin);
                &&& names.len() == 1 ==> (r matches Ok(nm) && nm@ == names[0])
                &&& names.len() == 0 ==> r == Err::<String, MetadataError>(
                    MetadataError::MissingBinaryInProject,
                )
                &&& names.len() > 1 ==> (r matches Err(e) && e matches
                    MetadataError::MultipleBinariesInProject(msg) && msg@ == comma_join(
                    names.sort_by(string_le()),
                ))
            },
    {
        match &self.name {
            Some(n) => Ok(n.clone()),
            None => match &self.binary_name {
                Some(b) => Ok(b.clone()),
                None => crate::cargo::main_binary_from_metadata(metadata),
            },
        }
    }
}

/// The dry-run report: what would be deployed, where it sits, and under
/// which settings, gathered without calling out.
pub struct DryOutput {
    pub kind: String,
    pub name: String,
    pub path: String,
    pub arch: String,
    pub runtimes: Vec<String>,
    pub tags: Option<String>,
    pub bucket: Option<String>,
    pub extra_files: Option<Vec<String>>,
}

impl Deploy {
    /// Assembles the dry-run report for the archive that would be deployed.
    /// The bucket, the joined tags and the extra files come from the deploy
    /// configuration the caller already resolved.
    pub fn dry_output(
        &self,
        name: &String,
        archive: &BinaryArchive,
        meta_bucket: Option<String>,
        meta_tags: Option<String>,
        meta_files: Option<Vec<String>>,
    ) -> (r: DryOutput)
        ensures
            self.extension ==> r.kind@ == "extension"@ && r.name@ == name@ && r.runtimes@
                == self.compatible_runtimes@,
            !self.extension ==> r.kind@ == "function"@ && (self.binary_name matches Some(b) ==>
                r.name@ == b@) && (self.binary_name is None ==> r.name@ == name@)
                && r.runtimes@.len() == 1 && r.runtimes@[0]@ == self.runtime@,
            r.path@ == archive.path@,
            r.arch@ == archive.architecture@,
            r.bucket == meta_bucket,
            r.tags == meta_tags,
            r.extra_files == meta_files,
    {
        if self.extension {
            DryOutput {
                kind: String::from_str("extension"),
                name: name.clone(),
                path: archive.path.clone(),
                arch: archive.architecture.clone(),
                runtimes: clone_string_vec(&self.compatible_runtimes),
                tags: meta_tags,
                bucket: meta_bucket,
                extra_files: meta_files,
            }
        } else {
            let binary_name = self.binary_name_or_default(name);
            let mut runtimes: Vec<String> = Vec::new();
            runtimes.push(self.runtime.clone());
            DryOutput {
                kind: String::from_str("function"),
                name: binary_name,
                path: archive.path.clone(),
                arch: archive.architecture.clone(),
                runtimes,
                tags: meta_tags,
                bucket: meta_bucket,
                extra_files: meta_files,
            }
        }
    }
}

} // verus!
