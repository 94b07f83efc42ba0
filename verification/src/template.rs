//! The project-scaffolding logic: package-name validation, the choice of
//! template, the per-file render/copy/skip decision, template variables, and
//! the prompt configuration of a template.  Reading template files, walking
//! directories and prompting are left to the surrounding tooling.

use vstd::prelude::*;

use crate::cargo::{seq_contains_str, string_views};
use crate::strmap::StrMap;

verus! {

/// Errors raised while scaffolding a package.
#[derive(Debug)]
pub enum CreateError {
    InvalidPackageName(String),
    InvalidTemplateEntry(String),
    InvalidEditor(String),
}

/// An ASCII letter.
pub open spec fn is_ascii_alpha(c: char) -> bool {
    65 <= c as u32 <= 90 || 97 <= c as u32 <= 122
}

/// A character allowed after the first one of a package name: a letter, a
/// digit, an underscore or a hyphen.
pub open spec fn is_name_char(c: char) -> bool {
    is_ascii_alpha(c) || 48 <= c as u32 <= 57 || c as u32 == 95 || c as u32 == 45
}

/// A well-formed package name: a letter followed by at least one more
/// letter, digit, underscore or hyphen.
pub open spec fn valid_package_name(s: Seq<char>) -> bool {
    s.len() >= 2 && is_ascii_alpha(s[0]) && (forall|i: int|
        1 <= i < s.len() ==> is_name_char(#[trigger] s[i]))
}

/// Accepts a well-formed package name and rejects everything else, echoing
/// the rejected name back in the error.
pub fn validate_name(name: &str) -> (r: Result<(), CreateError>)
    ensures
        valid_package_name(name@) ==> r is Ok,
        !valid_package_name(name@) ==> (r matches Err(e) && e matches
            CreateError::InvalidPackageName(n) && n@ == name@),
{
    let n = name.unicode_len();
    let mut ok: bool = n >= 2;
    if ok {
        let c0 = name.get_char(0) as u32;
        ok = (c0 >= 65 && c0 <= 90) || (c0 >= 97 && c0 <= 122);
    }
    if ok {
        let mut i: usize = 1;
        while i < n
            invariant
                1 <= i <= n,
                n == name@.len(),
                forall|j: int| 1 <= j < i ==> is_name_char(#[trigger] name@[j]),
            decreases n - i,
        {
            let c = name.get_char(i) as u32;
            if !((c >= 65 && c <= 90) || (c >= 97 && c <= 122) || (c >= 48 && c <= 57) || c == 95
                || c == 45) {
                return Err(CreateError::InvalidPackageName(String::from_str(name)));
            }
            i += 1;
        }
    }
    if ok {
        Ok(())
    } else {
        Err(CreateError::InvalidPackageName(String::from_str(name)))
    }
}

/// The template archive scaffolding a function project starts from.
pub const DEFAULT_FUNCTION_TEMPLATE_URL: &'static str =
    "https://github.com/cargo-lambda/default-template/archive/refs/heads/main.zip";

/// The template archive scaffolding an extension project starts from.
pub const DEFAULT_EXTENSION_TEMPLATE_URL: &'static str =
    "https://github.com/cargo-lambda/default-extension-template/archive/refs/heads/main.zip";

/// What to do with one entry of the template tree.
#[derive(Debug, PartialEq, Eq, Structural, Clone, Copy)]
pub enum RenderAction {
    CreateDir,
    Skip,
    Render,
    CopyFile,
}

/// The options of the scaffolding command.  Paths are plain strings here;
/// the surrounding tooling converts.
pub struct New {
    pub template: Option<String>,
    pub extension: bool,
    pub open: bool,
    pub bin_name: Option<String>,
    pub no_interactive: bool,
    pub render_file: Option<Vec<String>>,
    pub render_var: Option<Vec<String>>,
    pub ignore_file: Option<Vec<String>>,
    pub package_name: String,
}

/// Template-relative paths named on the command line as extra render
/// targets.
pub open spec fn spec_is_render_file(o: New, path: Seq<char>) -> bool {
    match o.render_file {
        Some(v) => seq_contains_str(v@, path),
        None => false,
    }
}

/// Template-relative paths named on the command line as ignored.
pub open spec fn spec_is_ignore_file(o: New, path: Seq<char>) -> bool {
    match o.ignore_file {
        Some(v) => seq_contains_str(v@, path),
        None => false,
    }
}

/// A file name that is always rendered: the manifest, the readme, a crate
/// root under `src`, or anything under `bin`.
pub open spec fn spec_always_rendered(
    entry_name: Seq<char>,
    parent_name: Option<Seq<char>>,
) -> bool {
    ||| entry_name == "Cargo.toml"@
    ||| entry_name == "README.md"@
    ||| (entry_name == "main.rs"@ && parent_name == Some("src"@))
    ||| (entry_name == "lib.rs"@ && parent_name == Some("src"@))
    ||| parent_name == Some("bin"@)
}

impl New {
    /// The template to scaffold from: the one named on the command line, or
    /// the default for the kind of project.
    pub fn template_option(&self) -> (r: &str)
        ensures
            self.template matches Some(t) ==> r@ == t@,
            self.template is None && self.extension ==> r@ == DEFAULT_EXTENSION_TEMPLATE_URL@,
            self.template is None && !self.extension ==> r@ == DEFAULT_FUNCTION_TEMPLATE_URL@,
    {
        match &self.template {
            Some(t) => t.as_str(),
            None => if self.extension {
                DEFAULT_EXTENSION_TEMPLATE_URL
            } else {
                DEFAULT_FUNCTION_TEMPLATE_URL
            },
        }
    }

    /// True when `path` was named as an extra render target.
    pub fn is_render_file(&self, path: &String) -> (r: bool)
        ensures
            r == spec_is_render_file(*self, path@),
    {
        match &self.render_file {
            Some(v) => crate::cargo::vec_contains_str(v, path),
            None => false,
        }
    }

    /// True when `path` was named as ignored.
    pub fn is_ignore_file(&self, path: &String) -> (r: bool)
        ensures
            r == spec_is_ignore_file(*self, path@),
    {
        match &self.ignore_file {
            Some(v) => crate::cargo::vec_contains_str(v, path),
            None => false,
        }
    }

    /// Classifies one entry of the template tree: directories are created
    /// (except the template's own `.git`), the packed template archive, the
    /// license and ignored files are skipped, well-known project files and
    /// named render targets go through the template engine, and everything
    /// else is copied as it is.
    pub fn render_decision(
        &self,
        is_dir: bool,
        entry_name: &String,
        parent_name: Option<&String>,
        relative: &String,
    ) -> (r: RenderAction)
        ensures
            is_dir ==> r == (if entry_name@ != ".git"@ {
                RenderAction::CreateDir
            } else {
                RenderAction::Skip
            }),
            !is_dir && entry_name@ == "cargo-lambda-template.zip"@ ==> r == RenderAction::Skip,
            !is_dir && entry_name@ != "cargo-lambda-template.zip"@ && (entry_name@ == "LICENSE"@
                || spec_is_ignore_file(*self, relative@)) ==> r == RenderAction::Skip,
            !is_dir && entry_name@ != "cargo-lambda-template.zip"@ && entry_name@ != "LICENSE"@
                && !spec_is_ignore_file(*self, relative@) ==> r == (if spec_always_rendered(
                entry_name@,
                crate::cargo::opt_string_view(parent_name),
            ) || spec_is_render_file(*self, relative@) {
                RenderAction::Render
            } else {
                RenderAction::CopyFile
            }),
    {
        if is_dir {
            let git = String::from_str(".git");
            if *entry_name == git {
                return RenderAction::Skip;
            }
            return RenderAction::CreateDir;
        }
        let packed = String::from_str("cargo-lambda-template.zip");
        if *entry_name == packed {
            return RenderAction::Skip;
        }
        let license = String::from_str("LICENSE");
        if *entry_name == license || self.is_ignore_file(relative) {
            return RenderAction::Skip;
        }
        let manifest = String::from_str("Cargo.toml");
        let readme = String::from_str("README.md");
        let main_rs = String::from_str("main.rs");
        let lib_rs = String::from_str("lib.rs");
        let src_dir = String::from_str("src");
        let bin_dir = String::from_str("bin");
        let under_src = match parent_name {
            Some(p) => *p == src_dir,
            None => false,
        };
        let under_bin = match parent_name {
            Some(p) => *p == bin_dir,
            None => false,
        };
        if *entry_name == manifest || *entry_name == readme || (*entry_name == main_rs && under_src)
            || (*entry_name == lib_rs && under_src) || under_bin || self.is_render_file(relative) {
            RenderAction::Render
        } else {
            RenderAction::CopyFile
        }
    }
}

/// The index of the first equals sign of `s`, or the length of `s` when it
/// has none.
pub open spec fn first_eq_index_from(s: Seq<char>, i: int) -> int
    decreases s.len() - i,
{
    if i < 0 || i >= s.len() {
        s.len() as int
    } else if s[i] == '=' {
        i
    } else {
        first_eq_index_from(s, i + 1)
    }
}

/// The variable tables after folding in `vars` from index `i` on: each
/// `KEY=VALUE` entry maps its key to its value (a later entry wins), and an
/// entry without an equals sign is ignored.
pub open spec fn render_vars_after(
    m: Map<Seq<char>, Seq<char>>,
    vars: Seq<String>,
    i: int,
) -> Map<Seq<char>, Seq<char>>
    decreases vars.len() - i,
{
    if i < 0 || i >= vars.len() {
        m
    } else {
        let s = vars[i]@;
        let j = first_eq_index_from(s, 0);
        let m2 = if j < s.len() {
            m.insert(s.subrange(0, j), s.subrange(j + 1, s.len() as int))
        } else {
            m
        };
        render_vars_after(m2, vars, i + 1)
    }
}

/// The text of a string-to-string table.
pub open spec fn text_view(m: StrMap<String>) -> Map<Seq<char>, Seq<char>> {
    Map::new(|k: Seq<char>| m@.dom().contains(k), |k: Seq<char>| m@[k]@)
}

/// Finds the first equals sign of `s`.
fn find_eq(s: &str) -> (r: usize)
    ensures
        r == first_eq_index_from(s@, 0),
        r <= s@.len(),
{
    let n = s.unicode_len();
    let mut i: usize = 0;
    while i < n
        invariant
            i <= n,
            n == s@.len(),
            first_eq_index_from(s@, 0) == first_eq_index_from(s@, i as int),
        decreases n - i,
    {
        if s.get_char(i) == '=' {
            return i;
        }
        i += 1;
    }
    n
}

impl New {
    /// The extra template variables named on the command line, read out of
    /// their `KEY=VALUE` form.
    pub fn render_variables(&self) -> (r: StrMap<String>)
        ensures
            r.wf(),
            match self.render_var {
                Some(vars) => text_view(r) == render_vars_after(
                    Map::<Seq<char>, Seq<char>>::empty(),
                    vars@,
                    0,
                ),
                None => text_view(r) == Map::<Seq<char>, Seq<char>>::empty(),
            },
    {
        let mut r: StrMap<String> = StrMap::new();
        proof {
            assert(text_view(r) =~= Map::<Seq<char>, Seq<char>>::empty());
        }
        match &self.render_var {
            None => r,
            Some(vars) => {
                let ghost goal = render_vars_after(Map::<Seq<char>, Seq<char>>::empty(), vars@, 0);
                let n = vars.len();
                let mut i: usize = 0;
                while i < n
                    invariant
                        i <= n,
                        n == vars@.len(),
                        r.wf(),
                        goal == render_vars_after(text_view(r), vars@, i as int),
                    decreases n - i,
                {
                    let var = &vars[i];
                    let s = var.as_str();
                    let j = find_eq(s);
                    let len = s.unicode_len();
                    if j < len {
                        let key = String::from_str(s.substring_char(0, j));
                        let value = String::from_str(s.substring_char(j + 1, len));
                        let ghost before = text_view(r);
                        r.insert(&key, value);
                        proof {
                            assert(text_view(r) =~= before.insert(
                                s@.subrange(0, j as int),
                                s@.subrange(j + 1 as int, s@.len() as int),
                            ));
                        }
                    }
                    i += 1;
                }
                r
            },
        }
    }
}

/// `s` with every occurrence of `pat` replaced by `val`, scanning left to
/// right and never rescanning replaced text.
pub open spec fn replace_all(s: Seq<char>, pat: Seq<char>, val: Seq<char>) -> Seq<char>
    recommends
        pat.len() > 0,
    decreases s.len(),
{
    if s.len() == 0 || pat.len() == 0 {
        s
    } else if pat.is_prefix_of(s) {
        val + replace_all(s.skip(pat.len() as int), pat, val)
    } else {
        seq![s[0]] + replace_all(s.drop_first(), pat, val)
    }
}

/// True when `pat` stands at position `i` of `s`.
fn matches_at(s: &str, n: usize, i: usize, pat: &str, m: usize) -> (r: bool)
    requires
        n == s@.len(),
        m == pat@.len(),
        i <= n,
    ensures
        r == (i + m <= n && pat@.is_prefix_of(s@.skip(i as int))),
{
    if m > n - i {
        return false;
    }
    let mut j: usize = 0;
    while j < m
        invariant
            j <= m,
            i + m <= n,
            n == s@.len(),
            m == pat@.len(),
            forall|k: int| 0 <= k < j ==> s@[i + k] == pat@[k],
        decreases m - j,
    {
        if s.get_char(i + j) != pat.get_char(j) {
            proof {
                assert(s@.skip(i as int)[j as int] != pat@[j as int]);
            }
            return false;
        }
        j += 1;
    }
    proof {
        assert forall|k: int| 0 <= k < m implies s@.skip(i as int)[k] == pat@[k] by {
            assert(s@[i + k] == pat@[k]);
        }
    }
    true
}

/// Replaces every occurrence of `pat` in `s` by `val`, as rendering one
/// template variable does.
pub fn replace_all_str(s: &str, pat: &str, val: &str) -> (r: String)
    requires
        pat@.len() > 0,
    ensures
        r@ == replace_all(s@, pat@, val@),
{
    let n = s.unicode_len();
    let m = pat.unicode_len();
    let mut out = String::new();
    let mut i: usize = 0;
    proof {
        assert(s@.skip(0) =~= s@);
        assert(out@ + replace_all(s@.skip(0), pat@, val@) =~= replace_all(s@, pat@, val@));
    }
    while i < n
        invariant
            i <= n,
            n == s@.len(),
            m == pat@.len(),
            m > 0,
            out@ + replace_all(s@.skip(i as int), pat@, val@) == replace_all(s@, pat@, val@),
        decreases n - i,
    {
        let ghost before = out@;
        let ghost rest = s@.skip(i as int);
        if matches_at(s, n, i, pat, m) {
            out.append(val);
            proof {
                assert(rest.skip(m as int) =~= s@.skip(i + m as int));
                assert((before + val@) + replace_all(s@.skip(i + m as int), pat@, val@)
                    =~= before + (val@ + replace_all(rest.skip(m as int), pat@, val@)));
            }
            i += m;
        } else {
            out.append(s.substring_char(i, i + 1));
            proof {
                assert(s@.subrange(i as int, i + 1 as int) =~= seq![rest[0]]);
                assert(rest.drop_first() =~= s@.skip(i + 1 as int));
                assert(rest.len() > 0 && !pat@.is_prefix_of(rest));
                assert((before + seq![rest[0]]) + replace_all(
                    s@.skip(i + 1 as int),
                    pat@,
                    val@,
                ) =~= before + (seq![rest[0]] + replace_all(rest.drop_first(), pat@, val@)));
            }
            i += 1;
        }
    }
    proof {
        assert(s@.skip(n as int) =~= Seq::<char>::empty());
        assert(out@ + replace_all(s@.skip(n as int), pat@, val@) =~= out@);
    }
    out
}

/// One value a template prompt can yield: a flag or a line of text.
#[derive(Debug)]
pub enum PromptValue {
    Boolean(bool),
    Text(String),
}

/// The ghost shape of a prompt value.
pub enum PromptValueView {
    Boolean(bool),
    Text(Seq<char>),
}

impl View for PromptValue {
    type V = PromptValueView;

    open spec fn view(&self) -> PromptValueView {
        match self {
            PromptValue::Boolean(b) => PromptValueView::Boolean(*b),
            PromptValue::Text(s) => PromptValueView::Text(s@),
        }
    }
}

impl Default for PromptValue {
    /// A prompt value defaults to empty text.
    fn default() -> (r: PromptValue)
        ensures
            r@ == PromptValueView::Text(Seq::<char>::empty()),
    {
        PromptValue::Text(String::new())
    }
}

/// One prompt a template asks while scaffolding.
pub struct TemplatePrompt {
    pub name: String,
    pub message: String,
    pub choices: Option<Vec<String>>,
    pub default: Option<PromptValue>,
}

/// A template's own configuration: its prompts and which files it wants
/// rendered or ignored.
pub struct TemplateConfig {
    pub disable_default_prompts: bool,
    pub prompts: Vec<TemplatePrompt>,
    pub render_files: Vec<String>,
    pub render_all_files: bool,
    pub ignore_files: Vec<String>,
}

/// The value a prompt yields when nobody answers: its default, or empty
/// text.
pub open spec fn prompt_default(p: TemplatePrompt) -> PromptValueView {
    match p.default {
        Some(v) => v@,
        None => PromptValueView::Text(Seq::empty()),
    }
}

/// The variable table after folding in the defaults of `prompts` from index
/// `i` on.
pub open spec fn defaults_after(
    m: Map<Seq<char>, PromptValueView>,
    prompts: Seq<TemplatePrompt>,
    i: int,
) -> Map<Seq<char>, PromptValueView>
    decreases prompts.len() - i,
{
    if i < 0 || i >= prompts.len() {
        m
    } else {
        defaults_after(m.insert(prompts[i].name@, prompt_default(prompts[i])), prompts, i + 1)
    }
}

/// The ghost view of a prompt-value table.
pub open spec fn options_view(m: StrMap<PromptValue>) -> Map<Seq<char>, PromptValueView> {
    Map::new(|k: Seq<char>| m@.dom().contains(k), |k: Seq<char>| m@[k]@)
}

impl TemplateConfig {
    /// The variables a non-interactive run uses: every prompt answered by
    /// its default.  An interactive run asks each prompt instead; the
    /// prompting itself is the surrounding tooling's.
    pub fn ask_template_options(&self) -> (r: StrMap<PromptValue>)
        ensures
            r.wf(),
            options_view(r) == defaults_after(
                Map::<Seq<char>, PromptValueView>::empty(),
                self.prompts@,
                0,
            ),
    {
        let mut r: StrMap<PromptValue> = StrMap::new();
        proof {
            assert(options_view(r) =~= Map::<Seq<char>, PromptValueView>::empty());
        }
        let ghost goal = defaults_after(Map::<Seq<char>, PromptValueView>::empty(), self.prompts@, 0);
        let n = self.prompts.len();
        let mut i: usize = 0;
        while i < n
            invariant
                i <= n,
                n == self.prompts@.len(),
                r.wf(),
                goal == defaults_after(options_view(r), self.prompts@, i as int),
            decreases n - i,
        {
            let prompt = &self.prompts[i];
            let value = match &prompt.default {
                Some(v) => v.clone(),
                None => PromptValue::Text(String::new()),
            };
            let ghost before = options_view(r);
            r.insert(&prompt.name, value);
            proof {
                assert(options_view(r) =~= before.insert(
                    self.prompts@[i as int].name@,
                    prompt_default(self.prompts@[i as int]),
                ));
            }
            i += 1;
        }
        r
    }
}

impl Clone for PromptValue {
    fn clone(&self) -> (r: PromptValue)
        ensures
            r@ == self@,
    {
        match self {
            PromptValue::Boolean(b) => PromptValue::Boolean(*b),
            PromptValue::Text(s) => PromptValue::Text(s.clone()),
        }
    }
}

/// How a prompt's answer is judged.
#[derive(Debug)]
pub enum Validation {
    Valid,
    Invalid(String),
}

/// The choices of `choices` that `input` is a prefix of, offered while the
/// user is still typing.
pub open spec fn matching_choices(cs: Seq<String>, inp: Seq<char>) -> Seq<Seq<char>>
    decreases cs.len(),
{
    if cs.len() == 0 {
        Seq::empty()
    } else {
        let rest = matching_choices(cs.drop_last(), inp);
        if inp.is_prefix_of(cs.last()@) {
            rest.push(cs.last()@)
        } else {
            rest
        }
    }
}

/// True when `p` starts `s`.
fn str_starts_with(s: &String, p: &str) -> (r: bool)
    ensures
        r == p@.is_prefix_of(s@),
{
    let sl = s.as_str().unicode_len();
    let pl = p.unicode_len();
    if pl > sl {
        return false;
    }
    let mut i: usize = 0;
    while i < pl
        invariant
            i <= pl,
            pl <= sl,
            sl == s@.len(),
            pl == p@.len(),
            forall|j: int| 0 <= j < i ==> s@[j] == p@[j],
        decreases pl - i,
    {
        if s.as_str().get_char(i) != p.get_char(i) {
            return false;
        }
        i += 1;
    }
    true
}

/// The choices `input` could still become: every choice it is a prefix of.
pub fn suggest_choice(input: &str, choices: &Vec<String>) -> (r: Vec<String>)
    ensures
        string_views(r@) == matching_choices(choices@, input@),
{
    let mut r: Vec<String> = Vec::new();
    let n = choices.len();
    let mut i: usize = 0;
    proof {
        assert(choices@.subrange(0, 0) =~= Seq::<String>::empty());
        assert(string_views(r@) =~= matching_choices(choices@.subrange(0, 0), input@));
    }
    while i < n
        invariant
            i <= n,
            n == choices@.len(),
            string_views(r@) == matching_choices(choices@.subrange(0, i as int), input@),
        decreases n - i,
    {
        proof {
            assert(choices@.subrange(0, i + 1 as int).drop_last() =~= choices@.subrange(
                0,
                i as int,
            ));
            assert(choices@.subrange(0, i + 1 as int).last() == choices@[i as int]);
        }
        if str_starts_with(&choices[i], input) {
            r.push(choices[i].clone());
            proof {
                assert(string_views(r@) =~= matching_choices(
                    choices@.subrange(0, i + 1 as int),
                    input@,
                ));
            }
        }
        i += 1;
    }
    proof {
        assert(choices@.subrange(0, n as int) =~= choices@);
    }
    r
}

/// Accepts `input` when it is one of `choices`, and rejects it otherwise,
/// naming the bad choice.
pub fn validate_choice(input: &str, choices: &Vec<String>) -> (r: Validation)
    ensures
        seq_contains_str(choices@, input@) ==> r is Valid,
        !seq_contains_str(choices@, input@) ==> (r matches Validation::Invalid(m) && m@
            == "invalid choice: "@ + input@),
{
    let owned = String::from_str(input);
    if crate::cargo::vec_contains_str(choices, &owned) {
        Validation::Valid
    } else {
        let mut m = String::from_str("invalid choice: ");
        m.append(input);
        Validation::Invalid(m)
    }
}

} // verus!
