//! Capability-based local modules: which manifests are accepted, how the
//! module list is formed, and how a module's answer is judged.
use vstd::prelude::*;
use crate::order::{keys_sorted, sort_by_text_key, with_key, TextKeyed};
use crate::text::{blank, chars_of, has_prefix, is_blank, owned, push_text, same_text, starts_with, string_of_range};

verus! {

/// The built-in assignment import's identifier.
pub const AI_ID: &'static str = "builtin.ai.assignment-import";

/// The capability the built-in assignment import offers.
pub const AI_CAPABILITY: &'static str = "assignment.extract";

/// A module as the module list shows it.
#[derive(Debug)]
pub struct ModuleDescriptor {
    pub id: String,
    pub name: String,
    pub version: String,
    pub capabilities: Vec<String>,
    pub builtin: bool,
}

/// A module's `module.json`.
#[derive(Debug)]
pub struct ModuleManifest {
    pub id: String,
    pub name: String,
    pub version: String,
    pub capabilities: Vec<String>,
    pub executable: String,
}

/// An installed module and its resolved executable.
#[derive(Debug)]
pub struct InstalledModule {
    pub descriptor: ModuleDescriptor,
    pub executable: String,
}

/// A character allowed in module ids and capability names.
pub open spec fn token_char(c: char) -> bool {
    ('a' <= c && c <= 'z') || ('0' <= c && c <= '9') || c == '.' || c == '-'
}

/// A module id or capability name: one to a hundred bytes, each a
/// lower-case ASCII letter, a digit, `.` or `-`.
pub open spec fn is_token(s: Seq<char>) -> bool {
    &&& 0 < s.len() <= 100
    &&& forall|i: int| 0 <= i < s.len() ==> token_char(#[trigger] s[i])
}

/// Whether `value` is a valid module id or capability name.
pub fn valid_token(value: &str) -> (b: bool)
    ensures
        b == is_token(value@),
{
    let v = chars_of(value);
    if v.len() == 0 || v.len() > 100 {
        return false;
    }
    let mut i: usize = 0;
    while i < v.len()
        invariant
            i <= v.len(),
            v@ == value@,
            forall|k: int| 0 <= k < i ==> token_char(#[trigger] v@[k]),
        decreases v.len() - i,
    {
        let c = v[i];
        if !(('a' <= c && c <= 'z') || ('0' <= c && c <= '9') || c == '.' || c == '-') {
            return false;
        }
        i += 1;
    }
    true
}

/// All the texts are tokens.
pub open spec fn all_tokens(caps: Seq<String>) -> bool {
    forall|i: int| 0 <= i < caps.len() ==> is_token(#[trigger] caps[i]@)
}

/// A manifest the host accepts: a token id outside `builtin.`, a name that
/// is not blank, at least one capability, every capability a token, and
/// an executable given as a plain relative path inside the module folder.
pub open spec fn manifest_accepted(m: ModuleManifest, plain_relative: bool) -> bool {
    &&& is_token(m.id@)
    &&& !has_prefix(m.id@, "builtin."@)
    &&& !is_blank(m.name@)
    &&& m.capabilities@.len() > 0
    &&& all_tokens(m.capabilities@)
    &&& plain_relative
}

/// Whether a manifest is accepted; `plain_relative` says whether its
/// executable path is relative and made of normal segments only.
pub fn accept_manifest(m: &ModuleManifest, plain_relative: bool) -> (b: bool)
    ensures
        b == manifest_accepted(*m, plain_relative),
{
    if !valid_token(m.id.as_str()) || starts_with(&chars_of(m.id.as_str()), &chars_of("builtin."))
        || blank(m.name.as_str()) || m.capabilities.len() == 0 {
        return false;
    }
    let mut i: usize = 0;
    while i < m.capabilities.len()
        invariant
            i <= m.capabilities@.len(),
            forall|k: int| 0 <= k < i ==> is_token(#[trigger] m.capabilities@[k]@),
        decreases m.capabilities.len() - i,
    {
        if !valid_token(m.capabilities[i].as_str()) {
            return false;
        }
        i += 1;
    }
    plain_relative
}

/// The descriptor of an accepted manifest.
pub fn descriptor_of(m: ModuleManifest) -> (d: ModuleDescriptor)
    ensures
        d.id == m.id,
        d.name == m.name,
        d.version == m.version,
        d.capabilities == m.capabilities,
        !d.builtin,
{
    ModuleDescriptor {
        id: m.id,
        name: m.name,
        version: m.version,
        capabilities: m.capabilities,
        builtin: false,
    }
}

impl TextKeyed for InstalledModule {
    /// Installed modules are listed by name.
    open spec fn sort_key(&self) -> Seq<char> {
        self.descriptor.name@
    }

    fn text_key(&self) -> (r: Vec<char>) {
        chars_of(self.descriptor.name.as_str())
    }
}

/// Installed modules ordered by name; modules with the same name keep
/// their order.
pub fn sort_modules(modules: Vec<InstalledModule>) -> (r: Vec<InstalledModule>)
    ensures
        r@.to_multiset() == modules@.to_multiset(),
        keys_sorted(r@),
        forall|k: Seq<char>| #[trigger] with_key(r@, k) == with_key(modules@, k),
{
    sort_by_text_key(modules)
}

/// The descriptor of the built-in assignment import.
pub fn builtin_descriptor(version: &str) -> (d: ModuleDescriptor)
    ensures
        d.id@ == AI_ID@,
        d.name@ == "AI 作业识别"@,
        d.version@ == version@,
        d.capabilities@.len() == 1,
        d.capabilities@[0]@ == AI_CAPABILITY@,
        d.builtin,
{
    let mut caps: Vec<String> = Vec::new();
    caps.push(owned(AI_CAPABILITY));
    ModuleDescriptor {
        id: owned(AI_ID),
        name: owned("AI 作业识别"),
        version: owned(version),
        capabilities: caps,
        builtin: true,
    }
}

/// The module list: the built-in import first, then the installed
/// modules in the order given.
pub fn module_list(version: &str, installed: Vec<InstalledModule>) -> (r: Vec<ModuleDescriptor>)
    ensures
        r@.len() == installed@.len() + 1,
        r@[0].id@ == AI_ID@,
        r@[0].builtin,
        r@[0].version@ == version@,
        forall|i: int| 0 <= i < installed@.len() ==> #[trigger] r@[i + 1] == installed@[i].descriptor,
{
    let ghost ms = installed@;
    let mut r: Vec<ModuleDescriptor> = Vec::new();
    r.push(builtin_descriptor(version));
    let mut input = installed;
    let mut rev: Vec<InstalledModule> = Vec::new();
    while input.len() > 0
        invariant
            rev@.len() + input@.len() == ms.len(),
            input@ == ms.take(input@.len() as int),
            forall|k: int| 0 <= k < rev@.len() ==> #[trigger] rev@[k] == ms[ms.len() - 1 - k],
        decreases input.len(),
    {
        let m = input.pop().unwrap();
        rev.push(m);
        assert(input@ =~= ms.take(input@.len() as int));
    }
    while rev.len() > 0
        invariant
            r@.len() + rev@.len() == ms.len() + 1,
            r@.len() >= 1,
            r@[0].id@ == AI_ID@,
            r@[0].builtin,
            r@[0].version@ == version@,
            forall|k: int| 0 <= k < rev@.len() ==> #[trigger] rev@[k] == ms[ms.len() - 1 - k],
            forall|k: int| 0 <= k < r@.len() - 1 ==> #[trigger] r@[k + 1] == ms[k].descriptor,
        decreases rev.len(),
    {
        let m = rev.pop().unwrap();
        r.push(m.descriptor);
    }
    r
}

// ------------------------------------------------------------- invocation

/// Whether a module declares a capability.
pub open spec fn declares(caps: Seq<String>, capability: Seq<char>) -> bool {
    exists|i: int| 0 <= i < caps.len() && (#[trigger] caps[i])@ == capability
}

/// Checks that a module declares the capability it is asked for.
pub fn check_declared(d: &ModuleDescriptor, capability: &str) -> (r: Result<(), String>)
    ensures
        r is Ok <==> declares(d.capabilities@, capability@),
        r matches Err(e) ==> e@ == "模块未声明此功能"@,
{
    let mut i: usize = 0;
    while i < d.capabilities.len()
        invariant
            i <= d.capabilities@.len(),
            forall|k: int| 0 <= k < i ==> (#[trigger] d.capabilities@[k])@ != capability@,
        decreases d.capabilities.len() - i,
    {
        if same_text(d.capabilities[i].as_str(), capability) {
            return Ok(());
        }
        i += 1;
    }
    Err(owned("模块未声明此功能"))
}

/// Checks the capability asked of the built-in import.
pub fn check_builtin_capability(capability: &str) -> (r: Result<(), String>)
    ensures
        r is Ok <==> capability@ == AI_CAPABILITY@,
        r matches Err(e) ==> e@ == "模块不支持此功能"@,
{
    if same_text(capability, AI_CAPABILITY) {
        Ok(())
    } else {
        Err(owned("模块不支持此功能"))
    }
}

/// The position of the first installed module with the given id.
pub fn find_module(modules: &Vec<InstalledModule>, id: &str) -> (r: Result<usize, String>)
    ensures
        match r {
            Ok(i) => i < modules@.len() && modules@[i as int].descriptor.id@ == id@ && forall|k: int|
                0 <= k < i ==> (#[trigger] modules@[k]).descriptor.id@ != id@,
            Err(e) => e@ == "模块未安装或清单无效"@ && forall|k: int|
                0 <= k < modules@.len() ==> (#[trigger] modules@[k]).descriptor.id@ != id@,
        },
{
    let mut i: usize = 0;
    while i < modules.len()
        invariant
            i <= modules@.len(),
            forall|k: int| 0 <= k < i ==> (#[trigger] modules@[k]).descriptor.id@ != id@,
        decreases modules.len() - i,
    {
        if same_text(modules[i].descriptor.id.as_str(), id) {
            return Ok(i);
        }
        i += 1;
    }
    Err(owned("模块未安装或清单无效"))
}

/// The largest request sent to a module, in bytes.
pub const REQUEST_LIMIT: usize = 2000000;

/// The largest answer read from a module, in bytes.
pub const OUTPUT_LIMIT: usize = 4000000;

/// Refuses a request that is too large to send.
pub fn check_request_size(len: usize) -> (r: Result<(), String>)
    ensures
        r is Ok <==> len <= REQUEST_LIMIT,
        r matches Err(e) ==> e@ == "模块输入过大"@,
{
    if len > REQUEST_LIMIT {
        return Err(owned("模块输入过大"));
    }
    Ok(())
}

/// Refuses an answer that is too large to read.
pub fn check_output_size(len: usize) -> (r: Result<(), String>)
    ensures
        r is Ok <==> len <= OUTPUT_LIMIT,
        r matches Err(e) ==> e@ == "模块输出过大"@,
{
    if len > OUTPUT_LIMIT {
        return Err(owned("模块输出过大"));
    }
    Ok(())
}

/// The message for a module that failed: its error output, at most the
/// first four hundred characters.
pub fn failure_message(stderr: &str) -> (r: String)
    ensures
        r@ == "模块运行失败："@ + (if stderr@.len() <= 400 {
            stderr@
        } else {
            stderr@.take(400)
        }),
{
    let v = chars_of(stderr);
    let end = if v.len() <= 400 { v.len() } else { 400 };
    let mut m = owned("模块运行失败：");
    let part = string_of_range(&v, 0, end);
    push_text(&mut m, part.as_str());
    assert(v@.subrange(0, v@.len() as int) =~= v@);
    assert(v@.subrange(0, 400) =~= v@.take(400));
    m
}

/// How a module's answer is judged, from its `protocol`, `ok`, `error`
/// and whether it has a `result`: the protocol must be 1; `ok: false`
/// reports the module's error (or a generic one); a result must be there.
pub open spec fn answer_verdict(
    protocol: Option<u64>,
    ok: Option<bool>,
    error: Option<Seq<char>>,
    has_result: bool,
) -> Result<(), Seq<char>> {
    if protocol != Some(1u64) {
        Err("模块协议版本不兼容"@)
    } else if ok == Some(false) {
        match error {
            Some(e) => Err(e),
            None => Err("模块执行失败"@),
        }
    } else if !has_result {
        Err("模块缺少 result 字段"@)
    } else {
        Ok(())
    }
}

/// Judges a module's answer.
pub fn check_answer(protocol: Option<u64>, ok: Option<bool>, error: Option<String>, has_result: bool) -> (r:
    Result<(), String>)
    ensures
        crate::ai::unit_result_matches(
            r,
            answer_verdict(
                protocol,
                ok,
                match error {
                    Some(e) => Some(e@),
                    None => None,
                },
                has_result,
            ),
        ),
{
    match protocol {
        Some(1) => {},
        _ => return Err(owned("模块协议版本不兼容")),
    }
    match ok {
        Some(false) => {
            return match error {
                Some(e) => Err(e),
                None => Err(owned("模块执行失败")),
            };
        },
        _ => {},
    }
    if !has_result {
        return Err(owned("模块缺少 result 字段"));
    }
    Ok(())
}

// -------------------------------------------------------------------- laws

/// An installed module can never pass for the built-in import: an
/// accepted manifest's id does not start with `builtin.`, so it differs
/// from the built-in import's id.
pub proof fn lemma_accepted_module_not_builtin(m: ModuleManifest, plain_relative: bool)
    requires
        manifest_accepted(m, plain_relative),
    ensures
        m.id@ != AI_ID@,
{
    reveal_strlit("builtin.ai.assignment-import");
    reveal_strlit("builtin.");
    if m.id@ == AI_ID@ {
        assert(m.id@.take(8) =~= "builtin."@);
    }
}

} // verus!
