//! Splitting a component into the core modules that the JavaScript host
//! compiles: the main module, and the WASI module when there is one.

use vstd::prelude::*;
use js_component_bindgen::{transpile, InstantiationMode, TranspileOpts};

use crate::text::{chars_end_with, chars_of, ends_with};

verus! {

/// The core modules of a component.
pub struct ComponentFiles {
    /// The main core module.
    pub main_core: Vec<u8>,
    /// The core module that implements WASI, if the component uses WASI.
    pub wasi_core: Option<Vec<u8>>,
}

/// Why a component could not be split into its core modules.
#[derive(Debug, Clone, PartialEq, Eq)]
pub enum LoadError {
    /// The component could not be transpiled; the transpiler's message.
    Transpile(String),
    /// The transpiled files hold no main core module.
    MissingMainCore,
}

/// The bytes of an optional module.
pub open spec fn module_bytes(module: Option<Vec<u8>>) -> Option<Seq<u8>> {
    match module {
        Some(m) => Some(m@),
        None => None,
    }
}

/// The names and bytes of the files.
pub open spec fn named_files(files: Seq<(String, Vec<u8>)>) -> Seq<(Seq<char>, Seq<u8>)> {
    files.map_values(|f: (String, Vec<u8>)| (f.0@, f.1@))
}

/// What the first `n` files give: the last main core module, the last WASI
/// core module, and whether a file marks the component as using WASI.
pub open spec fn scan_core_files(files: Seq<(Seq<char>, Seq<u8>)>, n: nat) -> (
    Option<Seq<u8>>,
    Option<Seq<u8>>,
    bool,
)
    decreases n,
{
    if n == 0 || n > files.len() {
        (None, None, false)
    } else {
        let (main, wasi, is_wasi) = scan_core_files(files, (n - 1) as nat);
        let (name, bytes) = files[n - 1];
        if ends_with(name, "core.wasm"@) {
            (Some(bytes), wasi, is_wasi)
        } else if ends_with(name, "core2.wasm"@) {
            (main, Some(bytes), is_wasi)
        } else if ends_with(name, "core4.wasm"@) {
            (main, wasi, true)
        } else {
            (main, wasi, is_wasi)
        }
    }
}

/// The core modules among `files`: the last file whose name ends with
/// `core.wasm` is the main module; the last that ends with `core2.wasm` is
/// the WASI module, kept only when a file ends with `core4.wasm`.
pub open spec fn spec_select_core_files(files: Seq<(Seq<char>, Seq<u8>)>) -> Result<
    (Seq<u8>, Option<Seq<u8>>),
    LoadError,
> {
    let (main, wasi, is_wasi) = scan_core_files(files, files.len());
    match main {
        Some(m) => Ok(
            (
                m,
                if is_wasi {
                    wasi
                } else {
                    None
                },
            ),
        ),
        None => Err(LoadError::MissingMainCore),
    }
}

/// Picks the core modules out of the transpiled `files`.
pub fn select_core_files(files: &[(String, Vec<u8>)]) -> (r: Result<ComponentFiles, LoadError>)
    ensures
        match spec_select_core_files(named_files(files@)) {
            Ok((main, wasi)) => r matches Ok(c) && c.main_core@ == main && module_bytes(c.wasi_core)
                == wasi,
            Err(e) => r == Err::<ComponentFiles, LoadError>(e),
        },
{
    proof {
        reveal_strlit("core.wasm");
        reveal_strlit("core2.wasm");
        reveal_strlit("core4.wasm");
    }
    let ghost named = named_files(files@);
    let main_suffix = chars_of("core.wasm");
    let wasi_suffix = chars_of("core2.wasm");
    let marker_suffix = chars_of("core4.wasm");
    let mut main_core: Option<Vec<u8>> = None;
    let mut wasi_core: Option<Vec<u8>> = None;
    let mut is_wasi: bool = false;
    let mut i: usize = 0;
    while i < files.len()
        invariant
            i <= files@.len(),
            named == named_files(files@),
            main_suffix@ == "core.wasm"@,
            wasi_suffix@ == "core2.wasm"@,
            marker_suffix@ == "core4.wasm"@,
            scan_core_files(named, i as nat) == (
                module_bytes(main_core),
                module_bytes(wasi_core),
                is_wasi,
            ),
        decreases files@.len() - i,
    {
        let name = chars_of(files[i].0.as_str());
        if chars_end_with(name.as_slice(), main_suffix.as_slice()) {
            main_core = Some(vstd::slice::slice_to_vec(files[i].1.as_slice()));
        } else if chars_end_with(name.as_slice(), wasi_suffix.as_slice()) {
            wasi_core = Some(vstd::slice::slice_to_vec(files[i].1.as_slice()));
        } else if chars_end_with(name.as_slice(), marker_suffix.as_slice()) {
            is_wasi = true;
        }
        i = i + 1;
    }
    match main_core {
        Some(main_core) => {
            let wasi_core = if is_wasi {
                wasi_core
            } else {
                None
            };
            Ok(ComponentFiles { main_core, wasi_core })
        },
        None => Err(LoadError::MissingMainCore),
    }
}

/// How the generated JavaScript instantiates the component.
#[derive(Debug, Clone, Copy, PartialEq, Eq)]
pub enum Instantiation {
    /// Through a promise.
    Async,
    /// Synchronously.
    Sync,
}

/// What `js_component_bindgen::transpile` does with `component`, given the
/// instantiation `mode` and otherwise default options: `None` where it
/// panics, the message of the error where it reports one (each cause, outermost
/// first), and otherwise the files it generates, each with its name and bytes.
pub uninterp spec fn transpile_outcome(component: Seq<u8>, mode: Instantiation) -> Option<
    Result<Seq<(Seq<char>, Seq<u8>)>, Seq<char>>,
>;

/// `js_component_bindgen::transpile` with the instantiation `mode` and
/// otherwise default options: the files it generates, each with its name and
/// bytes, or the message of the error it reports. The components on which
/// it panics are named, not listed: the `requires` leaves them out.
#[verifier::external_body]
fn transpile_files(component: &[u8], mode: Instantiation) -> (r: Result<
    Vec<(String, Vec<u8>)>,
    String,
>)
    requires
        transpile_outcome(component@, mode) is Some,
    ensures
        transpile_outcome(component@, mode) == Some(
            match r {
                Ok(files) => Ok(named_files(files@)),
                Err(message) => Err::<Seq<(Seq<char>, Seq<u8>)>, Seq<char>>(message@),
            },
        ),
{
    let instantiation_mode = match mode {
        Instantiation::Async => InstantiationMode::Async,
        Instantiation::Sync => InstantiationMode::Sync,
    };
    let opts = TranspileOpts { instantiation_mode: Some(instantiation_mode), ..Default::default() };
    match transpile(component, opts) {
        Ok(transpiled) => Ok(transpiled.files),
        Err(e) => Err(format!("{e:#}")),
    }
}

/// Loads components by transpiling them.
pub struct ComponentLoader {}

impl ComponentLoader {
    /// Transpiles `bytes` for asynchronous instantiation and picks the core
    /// modules out of the generated files: `Transpile` with the transpiler's
    /// message if it reports an error, else what `select_core_files` gives.
    /// The transpiler panics on some malformed components; those are the
    /// components the `requires` leaves out, and no caller can test for them
    /// beforehand.
    pub fn generate_files(bytes: &[u8]) -> (r: Result<ComponentFiles, LoadError>)
        requires
            transpile_outcome(bytes@, Instantiation::Async) is Some,
        ensures
            match transpile_outcome(bytes@, Instantiation::Async) {
                Some(Err(message)) => r matches Err(LoadError::Transpile(m)) && m@ == message,
                Some(Ok(files)) => match spec_select_core_files(files) {
                    Ok((main, wasi)) => r matches Ok(c) && c.main_core@ == main && module_bytes(
                        c.wasi_core,
                    ) == wasi,
                    Err(e) => r == Err::<ComponentFiles, LoadError>(e),
                },
                None => false,
            },
    {
        let files = match transpile_files(bytes, Instantiation::Async) {
            Ok(f) => f,
            Err(message) => {
                return Err(LoadError::Transpile(message));
            },
        };
        select_core_files(files.as_slice())
    }
}

} // verus!
