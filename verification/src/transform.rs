//! The file transformations that turn the output of `jco transpile` into a
//! zip archive that can be loaded synchronously.

use vstd::prelude::*;
use vstd::slice::slice_to_vec;
use vstd::string::StringExecFns;
use vstd::utf8::{decode_utf8, encode_utf8, valid_utf8};

use crate::text::{
    blank_lines_containing, chars_end_with, chars_of, contains, count_char, ends_with,
    lemma_blank_drops_pattern, lemma_blank_keeps_newlines, lemma_count_concat, lemma_count_zero,
    lemma_join_at_newline, lemma_replace_keeps_count, occurs_at, replace_all, spec_replace,
    string_of,
};

verus! {

/// A file that goes into the archive.
#[derive(Clone, Debug)]
pub struct ZippableFile {
    pub name: String,
    pub content: Vec<u8>,
}

impl View for ZippableFile {
    type V = (Seq<char>, Seq<u8>);

    open spec fn view(&self) -> (Seq<char>, Seq<u8>) {
        (self.name@, self.content@)
    }
}

/// The name and content of each file.
pub open spec fn file_models(files: Seq<ZippableFile>) -> Seq<(Seq<char>, Seq<u8>)> {
    files.map_values(|f: ZippableFile| f@)
}

/// Why a transformation failed.
#[derive(Debug, Clone, Copy, PartialEq, Eq)]
pub enum TransformError {
    /// No file name ends with `.js`: the folder is not the one `jco transpile` created.
    MissingJsFile,
    /// The `.js` file is not UTF-8.
    InvalidUtf8,
}

/// Compiles `pattern`, which is `.*Promise\.all.*`, with
/// `regex::Regex::new`, and returns `replace_all(text, "")`. That pattern
/// compiles. `.` matches any character but a newline, so a match lies within
/// one line; in a line that holds `Promise.all` the leftmost match starts at
/// the line's start and the greedy `.*` runs to its end. Every such line is
/// emptied and its newline kept; the other lines stay as they are.
#[verifier::external_body]
fn blank_promise_all_lines(pattern: &str, text: &str) -> (r: Option<String>)
    requires
        pattern@ == promise_all_pattern(),
    ensures
        r is Some,
        r.unwrap()@ == blank_lines_containing(text@, "Promise.all"@),
{
    match regex::Regex::new(pattern) {
        Ok(re) => Some(re.replace_all(text, "").into_owned()),
        Err(_) => None,
    }
}

/// The text of `bytes`, if they are UTF-8.
#[verifier::external_body]
fn str_from_utf8(bytes: &[u8]) -> (r: Option<&str>)
    ensures
        r is Some <==> valid_utf8(bytes@),
        r matches Some(s) ==> s@ == decode_utf8(bytes@),
{
    std::str::from_utf8(bytes).ok()
}

/// The regex that matches every line that awaits `Promise.all`.
pub open spec fn promise_all_pattern() -> Seq<char> {
    ".*Promise\\.all.*"@
}

/// `text` with its exported async functions made plain functions and every
/// `await ` dropped.
pub open spec fn spec_strip_async(text: Seq<char>) -> Seq<char> {
    let no_async = spec_replace(text, "export async function"@, "function"@);
    spec_replace(no_async, "await "@, ""@)
}

/// `body` wrapped in an expression that runs it and evaluates to `instantiate`.
pub open spec fn spec_wrap_instantiate(body: Seq<char>) -> Seq<char> {
    "(() => {\n"@ + body + "\nreturn instantiate;\n})()\n"@
}

/// The generated module with its async functions made synchronous, the
/// lines that await `Promise.all` emptied, wrapped in an expression that
/// evaluates to the `instantiate` function.
pub open spec fn spec_modify_js(text: Seq<char>) -> Seq<char> {
    spec_wrap_instantiate(blank_lines_containing(spec_strip_async(text), "Promise.all"@))
}

/// The pattern and replacements that `strip_async` uses hold no newline.
proof fn lemma_strip_async_texts()
    ensures
        "export async function"@.len() > 0,
        "await "@.len() > 0,
        count_char("export async function"@, '\n') == 0,
        count_char("function"@, '\n') == 0,
        count_char("await "@, '\n') == 0,
        count_char(""@, '\n') == 0,
{
    reveal_strlit("export async function");
    reveal_strlit("function");
    reveal_strlit("await ");
    reveal_strlit("");
    reveal_with_fuel(count_char, 22);
}

/// `Promise.all` holds no newline.
proof fn lemma_promise_all_text()
    ensures
        "Promise.all"@.len() == 11,
        "Promise.all"@[0] == 'P',
        count_char("Promise.all"@, '\n') == 0,
{
    reveal_strlit("Promise.all");
    reveal_with_fuel(count_char, 12);
}

/// The text before the wrapped module: one newline, at its end.
proof fn lemma_wrap_head()
    ensures
        "(() => {\n"@.len() == 9,
        "(() => {\n"@[8] == '\n',
        count_char("(() => {\n"@, '\n') == 1,
{
    reveal_strlit("(() => {\n");
    reveal_with_fuel(count_char, 10);
}

/// The text after the wrapped module: three newlines, the first at its
/// start, and no `P`.
proof fn lemma_wrap_tail()
    ensures
        "\nreturn instantiate;\n})()\n"@.len() > 0,
        "\nreturn instantiate;\n})()\n"@[0] == '\n',
        count_char("\nreturn instantiate;\n})()\n"@, '\n') == 3,
        count_char("\nreturn instantiate;\n})()\n"@, 'P') == 0,
{
    reveal_strlit("\nreturn instantiate;\n})()\n");
    reveal_with_fuel(count_char, 27);
}

/// The output of `modify_js` holds `Promise.all` nowhere, so on no line, and
/// it has exactly four newlines more than the input.
pub proof fn lemma_modify_js_lines(text: Seq<char>)
    ensures
        !contains(spec_modify_js(text), "Promise.all"@),
        count_char(spec_modify_js(text), '\n') == count_char(text, '\n') + 4,
{
    lemma_strip_async_texts();
    lemma_promise_all_text();
    lemma_wrap_head();
    lemma_wrap_tail();
    let pat = "Promise.all"@;
    let head = "(() => {\n"@;
    let tail = "\nreturn instantiate;\n})()\n"@;

    // the newlines
    let no_async = spec_replace(text, "export async function"@, "function"@);
    let stripped = spec_strip_async(text);
    lemma_replace_keeps_count(text, "export async function"@, "function"@, '\n');
    lemma_replace_keeps_count(no_async, "await "@, ""@, '\n');
    let body = blank_lines_containing(stripped, pat);
    lemma_blank_keeps_newlines(stripped, pat);
    lemma_count_concat(head, body, '\n');
    lemma_count_concat(head + body, tail, '\n');

    // the pattern
    lemma_blank_drops_pattern(stripped, pat);
    if contains(tail, pat) {
        let i = choose|i: int| 0 <= i && #[trigger] occurs_at(tail, pat, i);
        lemma_count_zero(tail, 'P');
        assert(tail.subrange(i, i + pat.len())[0] == tail[i]);
    }
    lemma_join_at_newline(head, body, pat);
    lemma_join_at_newline(head + body, tail, pat);
}

/// Turns the exported async functions of `text` into plain functions and
/// drops every `await `.
pub fn strip_async(text: &str) -> (r: String)
    ensures
        r@ == spec_strip_async(text@),
{
    proof {
        reveal_strlit("export async function");
        reveal_strlit("await ");
    }
    let chars = chars_of(text);

    // function signature
    let pat_async = chars_of("export async function");
    let rep_async = chars_of("function");
    let no_async = replace_all(chars.as_slice(), pat_async.as_slice(), rep_async.as_slice());

    // remove all awaits
    let pat_await = chars_of("await ");
    let rep_await = chars_of("");
    let no_await = replace_all(no_async.as_slice(), pat_await.as_slice(), rep_await.as_slice());
    string_of(no_await.as_slice())
}

/// Wraps `body` in an expression that runs it and evaluates to `instantiate`.
pub fn wrap_instantiate(body: &str) -> (r: String)
    ensures
        r@ == spec_wrap_instantiate(body@),
{
    let mut out = String::from_str("(() => {\n");
    out.append(body);
    out.append("\nreturn instantiate;\n})()\n");
    out
}

/// Makes the generated module synchronous: its exported async functions
/// become plain functions, awaits are dropped, the `Promise.all` lines are
/// blanked, and the whole is wrapped in an expression that evaluates to
/// `instantiate`.
pub fn modify_js(text: &str) -> (r: String)
    ensures
        r@ == spec_modify_js(text@),
{
    let no_await = strip_async(text);

    // remove Promise.all call
    let body = blank_promise_all_lines(".*Promise\\.all.*", no_await.as_str()).unwrap();
    wrap_instantiate(body.as_str())
}

/// The suffix of JavaScript files.
pub open spec fn js_suffix() -> Seq<char> {
    ".js"@
}

/// The suffix of TypeScript declaration files.
pub open spec fn dts_suffix() -> Seq<char> {
    ".d.ts"@
}

/// `i` is the first file whose name ends with `.js`.
pub open spec fn is_first_js(files: Seq<(Seq<char>, Seq<u8>)>, i: int) -> bool {
    &&& 0 <= i < files.len()
    &&& ends_with(files[i].0, js_suffix())
    &&& forall|j: int| 0 <= j < i ==> !ends_with(#[trigger] files[j].0, js_suffix())
}

/// The file is not a TypeScript declaration file.
pub open spec fn not_dts(f: (Seq<char>, Seq<u8>)) -> bool {
    !ends_with(f.0, dts_suffix())
}

/// Keeps every file that is not a TypeScript declaration file.
pub open spec fn keep_file() -> spec_fn((Seq<char>, Seq<u8>)) -> bool {
    |f: (Seq<char>, Seq<u8>)| not_dts(f)
}

/// What the JavaScript transformation makes of `files`: it adds
/// `sync_component.js`, made from the first `.js` file by `modify_js`, and
/// unless the original is kept removes that file and every `.d.ts` file.
pub open spec fn spec_js_transform(keep_original: bool, files: Seq<(Seq<char>, Seq<u8>)>) -> Result<
    Seq<(Seq<char>, Seq<u8>)>,
    TransformError,
> {
    if exists|i: int| is_first_js(files, i) {
        let i = choose|i: int| is_first_js(files, i);
        let content = files[i].1;
        if !valid_utf8(content) {
            Err(TransformError::InvalidUtf8)
        } else {
            let text = spec_modify_js(decode_utf8(content));
            let pushed = files.push(("sync_component.js"@, encode_utf8(text)));
            if keep_original {
                Ok(pushed)
            } else {
                Ok(pushed.remove(i).filter(keep_file()))
            }
        }
    } else {
        Err(TransformError::MissingJsFile)
    }
}

/// There is only one first `.js` file.
proof fn lemma_first_js_unique(files: Seq<(Seq<char>, Seq<u8>)>, i: int, j: int)
    requires
        is_first_js(files, i),
        is_first_js(files, j),
    ensures
        i == j,
{
    if i < j {
        assert(!ends_with(files[i].0, js_suffix()));
    } else if j < i {
        assert(!ends_with(files[j].0, js_suffix()));
    }
}

/// The index of the first file whose name ends with `.js`.
fn find_js_file(files: &Vec<ZippableFile>) -> (r: Option<usize>)
    ensures
        match r {
            Some(i) => is_first_js(file_models(files@), i as int),
            None => !exists|i: int| is_first_js(file_models(files@), i),
        },
{
    let ghost models = file_models(files@);
    let suffix = chars_of(".js");
    let mut i: usize = 0;
    while i < files.len()
        invariant
            i <= files@.len(),
            models == file_models(files@),
            suffix@ == js_suffix(),
            forall|j: int| 0 <= j < i ==> !ends_with(#[trigger] models[j].0, js_suffix()),
        decreases files@.len() - i,
    {
        let name = chars_of(files[i].name.as_str());
        if chars_end_with(name.as_slice(), suffix.as_slice()) {
            return Some(i);
        }
        i = i + 1;
    }
    proof {
        assert forall|k: int| !is_first_js(models, k) by {
            if 0 <= k < models.len() {
                assert(!ends_with(models[k].0, js_suffix()));
            }
        }
    }
    None
}

/// Removes every file whose name ends with `.d.ts`.
fn remove_type_declarations(files: &mut Vec<ZippableFile>)
    ensures
        file_models(final(files)@) == file_models(old(files)@).filter(
            keep_file(),
        ),
{
    let ghost orig = file_models(files@);
    let count: usize = files.len();
    assert(orig.len() == count);
    let suffix = chars_of(".d.ts");
    let mut kept: Vec<ZippableFile> = Vec::new();
    let mut n: usize = 0;
    assert(orig.take(0).filter(keep_file()) =~= Seq::empty());
    assert(file_models(kept@) =~= Seq::empty());
    assert(orig.skip(0) =~= orig);
    while files.len() > 0
        invariant
            n <= orig.len(),
            orig.len() <= usize::MAX,
            suffix@ == dts_suffix(),
            file_models(files@) == orig.skip(n as int),
            file_models(kept@) == orig.take(n as int).filter(keep_file()),
        decreases files@.len(),
    {
        let ghost before = files@;
        assert(file_models(files@).len() == files@.len());
        let f = files.remove(0);
        assert(orig[n as int] == f@) by {
            assert(file_models(before)[0] == f@);
        }
        assert(file_models(files@) =~= orig.skip(n + 1)) by {
            assert(files@ =~= before.remove(0));
            assert(file_models(files@) =~= file_models(before).skip(1));
            assert(orig.skip(n as int).skip(1) =~= orig.skip(n + 1));
        }
        assert(orig.take(n + 1).drop_last() =~= orig.take(n as int));
        assert(orig.take(n + 1).last() == orig[n as int]);
        assert(orig.take(n + 1) =~= orig.take(n as int).push(orig[n as int]));
        proof {
            orig.take(n as int).lemma_filter_push(orig[n as int], keep_file());
        }
        let name = chars_of(f.name.as_str());
        if !chars_end_with(name.as_slice(), suffix.as_slice()) {
            let ghost kept_before = kept@;
            kept.push(f);
            assert(file_models(kept@) =~= file_models(kept_before).push(f@));
        }
        n = n + 1;
    }
    assert(orig.take(n as int) =~= orig);
    *files = kept;
}

/// Adds `sync_component.js`, made from the first `.js` file by `modify_js`;
/// unless the original is kept, removes that file and every `.d.ts` file.
fn apply_js_transform(files: &mut Vec<ZippableFile>, keep_original: bool) -> (r: Result<
    (),
    TransformError,
>)
    ensures
        match spec_js_transform(keep_original, file_models(old(files)@)) {
            Ok(m) => r is Ok && file_models(final(files)@) == m,
            Err(e) => r == Err::<(), TransformError>(e) && final(files)@ == old(files)@,
        },
{
    let ghost models = file_models(files@);
    let index: usize = match find_js_file(files) {
        Some(i) => i,
        None => {
            return Err(TransformError::MissingJsFile);
        },
    };
    proof {
        let c = choose|i: int| is_first_js(models, i);
        lemma_first_js_unique(models, c, index as int);
    }
    let text = match str_from_utf8(files[index].content.as_slice()) {
        Some(t) => t,
        None => {
            return Err(TransformError::InvalidUtf8);
        },
    };
    let text = modify_js(text);
    let content = slice_to_vec(text.as_str().as_bytes());
    let ghost pushed_model = models.push(("sync_component.js"@, encode_utf8(text@)));
    files.push(ZippableFile { name: String::from_str("sync_component.js"), content });
    assert(file_models(files@) =~= pushed_model);

    if !keep_original {
        let ghost before = files@;
        files.remove(index);
        assert(file_models(files@) =~= pushed_model.remove(index as int)) by {
            assert(files@ =~= before.remove(index as int));
        }
        // Remove TS bindings
        remove_type_declarations(files);
    }
    Ok(())
}

/// A transformation of the files that go into the archive.
pub enum Transformer {
    /// Adds the synchronous version of the generated `.js` module.
    Js { keep_original: bool },
    /// Adds `version.txt` with the tool's version.
    Version { version: String },
    /// Adds the original component as `original_component.wasm`.
    AddOriginal { component: Vec<u8> },
}

/// What `transformer` makes of `files`, or why it fails.
pub open spec fn spec_apply(transformer: Transformer, files: Seq<(Seq<char>, Seq<u8>)>) -> Result<
    Seq<(Seq<char>, Seq<u8>)>,
    TransformError,
> {
    match transformer {
        Transformer::Js { keep_original } => spec_js_transform(keep_original, files),
        Transformer::Version { version } => Ok(files.push(spec_version_file(version@))),
        Transformer::AddOriginal { component } => Ok(
            files.push(("original_component.wasm"@, component@)),
        ),
    }
}

/// The files after applying `transformers` in order, stopping at the first
/// that fails, and the error it failed with.
pub open spec fn spec_transform_all(
    files: Seq<(Seq<char>, Seq<u8>)>,
    transformers: Seq<Transformer>,
) -> (Seq<(Seq<char>, Seq<u8>)>, Option<TransformError>)
    decreases transformers.len(),
{
    if transformers.len() == 0 {
        (files, None)
    } else {
        match spec_apply(transformers[0], files) {
            Ok(next) => spec_transform_all(next, transformers.skip(1)),
            Err(e) => (files, Some(e)),
        }
    }
}

impl Transformer {
    /// Applies the transformation to `files`; on failure they are left as they were.
    pub fn apply(&self, files: &mut Vec<ZippableFile>) -> (r: Result<(), TransformError>)
        ensures
            match spec_apply(*self, file_models(old(files)@)) {
                Ok(m) => r is Ok && file_models(final(files)@) == m,
                Err(e) => r == Err::<(), TransformError>(e) && final(files)@ == old(files)@,
            },
    {
        match self {
            Transformer::Js { keep_original } => apply_js_transform(files, *keep_original),
            Transformer::Version { version } => {
                let ghost before = file_models(files@);
                files.push(version_file(version.as_str()));
                assert(file_models(files@) =~= before.push(spec_version_file(version@)));
                Ok(())
            },
            Transformer::AddOriginal { component } => {
                let ghost before = file_models(files@);
                let content = slice_to_vec(component.as_slice());
                files.push(
                    ZippableFile { name: String::from_str("original_component.wasm"), content },
                );
                assert(file_models(files@) =~= before.push(
                    ("original_component.wasm"@, component@),
                ));
                Ok(())
            },
        }
    }
}

/// Applies `transformers` to `files` in order, stopping at the first that fails.
pub fn transform_all(files: &mut Vec<ZippableFile>, transformers: &[Transformer]) -> (r: Result<
    (),
    TransformError,
>)
    ensures
        file_models(final(files)@) == spec_transform_all(file_models(old(files)@), transformers@).0,
        match spec_transform_all(file_models(old(files)@), transformers@).1 {
            None => r is Ok,
            Some(e) => r == Err::<(), TransformError>(e),
        },
{
    let ghost goal = spec_transform_all(file_models(files@), transformers@);
    let mut i: usize = 0;
    assert(transformers@.skip(0) =~= transformers@);
    while i < transformers.len()
        invariant
            i <= transformers@.len(),
            goal == spec_transform_all(file_models(old(files)@), transformers@),
            spec_transform_all(file_models(files@), transformers@.skip(i as int)) == goal,
        decreases transformers@.len() - i,
    {
        let ghost rest = transformers@.skip(i as int);
        assert(rest[0] == transformers@[i as int]);
        assert(rest.skip(1) =~= transformers@.skip(i + 1));
        match transformers[i].apply(files) {
            Ok(()) => {},
            Err(e) => {
                assert(spec_transform_all(file_models(files@), rest) == (
                    file_models(files@),
                    Some(e),
                ));
                return Err(e);
            },
        }
        i = i + 1;
    }
    assert(transformers@.skip(i as int) =~= Seq::<Transformer>::empty());
    Ok(())
}

/// The transformation that adds the synchronous version of the generated module.
pub fn js_transformer(keep_original: bool) -> (r: Transformer)
    ensures
        r == (Transformer::Js { keep_original }),
{
    Transformer::Js { keep_original }
}

/// The transformation that adds `version.txt`.
pub fn version_transformer(version: &str) -> (r: Transformer)
    ensures
        r matches Transformer::Version { version: v } && v@ == version@,
{
    Transformer::Version { version: String::from_str(version) }
}

/// `version.txt`, holding the UTF-8 bytes of `version`.
pub open spec fn spec_version_file(version: Seq<char>) -> (Seq<char>, Seq<u8>) {
    ("version.txt"@, encode_utf8(version))
}

/// `version.txt`, holding the UTF-8 bytes of `version`.
pub fn version_file(version: &str) -> (r: ZippableFile)
    ensures
        r@ == spec_version_file(version@),
{
    ZippableFile {
        name: String::from_str("version.txt"),
        content: slice_to_vec(version.as_bytes()),
    }
}

/// The transformation that adds the original component, whose bytes are
/// `component`, as `original_component.wasm`.
pub fn add_original_file(component: Vec<u8>) -> (r: Transformer)
    ensures
        r matches Transformer::AddOriginal { component: c } && c@ == component@,
{
    Transformer::AddOriginal { component }
}

} // verus!
