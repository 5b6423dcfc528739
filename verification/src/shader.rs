//! Shaders: what a file is compiled as, and which shaders are compiled again.

use crate::text::{append_number, decimal, lemma_between, lemma_numerals_differ, same_text};
use vstd::prelude::*;
use vstd::string::*;

verus! {

/// A stage that the GLSL compiler knows.
#[derive(Clone, Copy, Debug, PartialEq, Eq, Structural)]
pub enum ShaderStage {
    Vertex,
    Fragment,
    Compute,
    RayGeneration,
    Intersection,
    ClosestHit,
    Miss,
}

/// What a file is compiled as.
#[derive(Clone, Copy, Debug, PartialEq, Eq, Structural)]
pub enum ShaderRoute {
    /// Only read by others; nothing is compiled.
    Header,
    /// Compiled as a Slang module.
    Slang,
    /// Compiled as one GLSL stage.
    Glsl(ShaderStage),
}

/// What a file with this extension is compiled as; `None` where the extension is unknown.
pub open spec fn route_of(extension: Seq<char>) -> Option<ShaderRoute> {
    if extension == "glsl"@ {
        Some(ShaderRoute::Header)
    } else if extension == "slang"@ {
        Some(ShaderRoute::Slang)
    } else if extension == "vert"@ {
        Some(ShaderRoute::Glsl(ShaderStage::Vertex))
    } else if extension == "frag"@ {
        Some(ShaderRoute::Glsl(ShaderStage::Fragment))
    } else if extension == "comp"@ {
        Some(ShaderRoute::Glsl(ShaderStage::Compute))
    } else if extension == "rgen"@ {
        Some(ShaderRoute::Glsl(ShaderStage::RayGeneration))
    } else if extension == "rint"@ {
        Some(ShaderRoute::Glsl(ShaderStage::Intersection))
    } else if extension == "rchit"@ {
        Some(ShaderRoute::Glsl(ShaderStage::ClosestHit))
    } else if extension == "rmiss"@ {
        Some(ShaderRoute::Glsl(ShaderStage::Miss))
    } else {
        None
    }
}

/// What a file with this extension is compiled as; `None` where the extension is unknown.
pub fn route(extension: &str) -> (r: Option<ShaderRoute>)
    ensures
        r == route_of(extension@),
{
    if same_text(extension, "glsl") {
        Some(ShaderRoute::Header)
    } else if same_text(extension, "slang") {
        Some(ShaderRoute::Slang)
    } else if same_text(extension, "vert") {
        Some(ShaderRoute::Glsl(ShaderStage::Vertex))
    } else if same_text(extension, "frag") {
        Some(ShaderRoute::Glsl(ShaderStage::Fragment))
    } else if same_text(extension, "comp") {
        Some(ShaderRoute::Glsl(ShaderStage::Compute))
    } else if same_text(extension, "rgen") {
        Some(ShaderRoute::Glsl(ShaderStage::RayGeneration))
    } else if same_text(extension, "rint") {
        Some(ShaderRoute::Glsl(ShaderStage::Intersection))
    } else if same_text(extension, "rchit") {
        Some(ShaderRoute::Glsl(ShaderStage::ClosestHit))
    } else if same_text(extension, "rmiss") {
        Some(ShaderRoute::Glsl(ShaderStage::Miss))
    } else {
        None
    }
}

/// `path` in the directory `dir`.
pub fn join_path(dir: &str, path: &str) -> (r: String)
    ensures
        r@ == dir@ + "/"@ + path@,
{
    let mut r: String = String::from_str(dir);
    r.append("/");
    r.append(path);
    r
}

/// Where a file that others read is found: next to the engine's shaders.
pub fn header_path(asset_dir: &str, name: &str) -> (r: String)
    ensures
        r@ == asset_dir@ + "/shaders/"@ + name@,
{
    let mut r: String = String::from_str(asset_dir);
    r.append("/shaders/");
    r.append(name);
    r
}

/// The name of the `n`-th module that process `pid` compiles.
pub open spec fn spec_module_name(pid: u32, n: u32) -> Seq<char> {
    decimal(pid as nat) + "-"@ + decimal(n as nat) + ".spv"@
}

/// No two modules of a process have one name.
pub proof fn lemma_modules_apart(pid: u32, a: u32, b: u32)
    requires
        spec_module_name(pid, a) == spec_module_name(pid, b),
    ensures
        a == b,
{
    let front = decimal(pid as nat) + "-"@;
    lemma_between(front, decimal(a as nat), decimal(b as nat), ".spv"@);
    lemma_numerals_differ(a as nat, b as nat, 10);
}

/// The name of the `n`-th module that process `pid` compiles.
pub fn module_name(pid: u32, n: u32) -> (r: String)
    ensures
        r@ == spec_module_name(pid, n),
{
    let mut r: String = String::new();
    append_number(&mut r, pid as u64, 10);
    r.append("-");
    append_number(&mut r, n as u64, 10);
    r.append(".spv");
    assert(r@ =~= spec_module_name(pid, n));
    r
}

/// A shader and those that it reads, by asset ids.
#[derive(Debug)]
pub struct ShaderDeps {
    pub shader: u64,
    pub dependencies: Vec<u64>,
}

/// The shaders that read `modified`, in order.
pub open spec fn readers_of(shaders: Seq<ShaderDeps>, modified: u64) -> Seq<u64>
    decreases shaders.len(),
{
    if shaders.len() == 0 {
        Seq::empty()
    } else {
        let front = readers_of(shaders.drop_last(), modified);
        if shaders.last().dependencies@.contains(modified) {
            front.push(shaders.last().shader)
        } else {
            front
        }
    }
}

fn reads(dependencies: &Vec<u64>, modified: u64) -> (r: bool)
    ensures
        r == dependencies@.contains(modified),
{
    let mut i: usize = 0;
    while i < dependencies.len()
        invariant
            i <= dependencies@.len(),
            forall|j: int| 0 <= j < i ==> dependencies@[j] != modified,
        decreases dependencies@.len() - i,
    {
        if dependencies[i] == modified {
            return true;
        }
        i = i + 1;
    }
    false
}

/// The shaders to load again once `modified` was modified: those that read it.
pub fn reload_modified(shaders: &Vec<ShaderDeps>, modified: u64) -> (r: Vec<u64>)
    ensures
        r@ == readers_of(shaders@, modified),
{
    let mut r: Vec<u64> = Vec::new();
    let mut i: usize = 0;
    while i < shaders.len()
        invariant
            i <= shaders@.len(),
            r@ == readers_of(shaders@.take(i as int), modified),
        decreases shaders@.len() - i,
    {
        assert(shaders@.take(i + 1).drop_last() =~= shaders@.take(i as int));
        if reads(&shaders[i].dependencies, modified) {
            r.push(shaders[i].shader);
        }
        i = i + 1;
    }
    assert(shaders@.take(i as int) =~= shaders@);
    r
}

} // verus!
