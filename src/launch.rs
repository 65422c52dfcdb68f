use vstd::prelude::*;

verus! {

/// What `str::to_lowercase` makes of a string.
pub uninterp spec fn lower_of(s: Seq<char>) -> Seq<char>;

/// Relies on `str::to_lowercase`: the result depends on the characters alone.
#[verifier::external_body]
fn lowercase(s: &str) -> (r: String)
    ensures
        r@ == lower_of(s@),
{
    s.to_lowercase()
}

/// `suffix` is the tail of `s`.
pub open spec fn has_suffix(s: Seq<char>, suffix: Seq<char>) -> bool {
    suffix.len() <= s.len() && s.subrange(s.len() - suffix.len(), s.len() as int) == suffix
}

/// Relies on `str::ends_with` with a string pattern: true exactly when the
/// pattern matches a suffix of the string.
#[verifier::external_body]
fn ends_with(s: &str, suffix: &str) -> (r: bool)
    ensures
        r == has_suffix(s@, suffix@),
{
    s.ends_with(suffix)
}

/// Name of the event that hands the frontend a document to open.
pub const FILE_ARGS_EVENT: &'static str = "tauri://file-args";

/// How long, in milliseconds, the frontend is given to get ready before the
/// document is announced.
pub const FILE_ARGS_DELAY_MS: u64 = 2000;

/// A lowercased path ends in one of the document extensions.
pub open spec fn has_document_suffix(lower: Seq<char>) -> bool {
    has_suffix(lower, ".md"@) || has_suffix(lower, ".markdown"@) || has_suffix(lower, ".txt"@)
}

/// A path names a document: its lowercased form ends in `.md`, `.markdown`
/// or `.txt`.
pub open spec fn is_document_path(path: Seq<char>) -> bool {
    has_document_suffix(lower_of(path))
}

/// The characters of each string.
pub open spec fn views(v: Seq<String>) -> Seq<Seq<char>> {
    v.map_values(|s: String| s@)
}

/// The arguments after the first (the program's own path) that name
/// documents, in the order given.
pub open spec fn document_args(args: Seq<Seq<char>>) -> Seq<Seq<char>> {
    if args.len() == 0 {
        Seq::empty()
    } else {
        args.skip(1).filter(|p: Seq<char>| is_document_path(p))
    }
}

/// The argument list handed to the frontend on request: the process's
/// arguments as given, the program's own path first, in order, with
/// duplicates and empty arguments kept and nothing changed in case or content.
pub fn command_line_args(args: Vec<String>) -> (r: Vec<String>)
    ensures
        r@ == args@,
        views(r@) == views(args@),
{
    args
}

/// Tells whether an already lowercased path ends in a document extension.
pub fn has_document_extension(lower: &str) -> (r: bool)
    ensures
        r == has_document_suffix(lower@),
{
    ends_with(lower, ".md") || ends_with(lower, ".markdown") || ends_with(lower, ".txt")
}

/// Tells whether a path names a document, ignoring the case of its extension.
pub fn is_document_file(path: &str) -> (r: bool)
    ensures
        r == is_document_path(path@),
{
    let lower = lowercase(path);
    has_document_extension(lower.as_str())
}

/// Keeps the arguments after the program's own path that name documents,
/// in the order given.
pub fn supported_files(args: &Vec<String>) -> (r: Vec<String>)
    ensures
        views(r@) == document_args(views(args@)),
{
    let ghost all = views(args@);
    let ghost pred = |p: Seq<char>| is_document_path(p);
    let mut files: Vec<String> = Vec::new();
    if args.len() == 0 {
        assert(views(files@) =~= Seq::<Seq<char>>::empty());
        return files;
    }
    let mut i: usize = 1;
    while i < args.len()
        invariant
            1 <= i <= args.len(),
            all == views(args@),
            pred == (|p: Seq<char>| is_document_path(p)),
            views(files@) == all.subrange(1, i as int).filter(pred),
        decreases args.len() - i,
    {
        let arg = &args[i];
        proof {
            assert(all.subrange(1, i + 1) =~= all.subrange(1, i as int).push(arg@));
            all.subrange(1, i as int).lemma_filter_push(arg@, pred);
        }
        if is_document_file(arg.as_str()) {
            files.push(arg.clone());
            assert(views(files@) =~= views(files@).drop_last().push(arg@));
        }
        assert(views(files@) =~= all.subrange(1, i as int).push(arg@).filter(pred));
        i = i + 1;
    }
    assert(all.skip(1) =~= all.subrange(1, args.len() as int));
    files
}

/// A document to announce to the frontend once the delay has passed.
pub struct FileArgsNotice {
    /// The path as it was given on the command line.
    pub path: String,
    /// How long to wait before sending the notice, in milliseconds.
    pub delay_ms: u64,
}

/// Decides what to announce at startup from the process's arguments: the first
/// argument after the program's own path that names a document, to be sent
/// after `FILE_ARGS_DELAY_MS`; nothing when no argument names a document.
pub fn startup_notice(args: &Vec<String>) -> (r: Option<FileArgsNotice>)
    ensures
        r is None <==> document_args(views(args@)).len() == 0,
        r matches Some(n) ==> n.path@ == document_args(views(args@))[0] && n.delay_ms
            == FILE_ARGS_DELAY_MS,
{
    let files = supported_files(args);
    if files.len() == 0 {
        None
    } else {
        assert(views(files@)[0] == files@[0]@);
        Some(FileArgsNotice { path: files[0].clone(), delay_ms: FILE_ARGS_DELAY_MS })
    }
}

/// The first element that a filter keeps is the earliest element that meets
/// the predicate.
proof fn lemma_filter_first<A>(s: Seq<A>, pred: spec_fn(A) -> bool)
    requires
        s.filter(pred).len() > 0,
    ensures
        exists|k: int|
            0 <= k < s.len() && s[k] == s.filter(pred)[0] && pred(s[k]) && forall|j: int|
                0 <= j < k ==> !pred(#[trigger] s[j]),
    decreases s.len(),
{
    reveal(Seq::filter);
    let init = s.drop_last();
    if init.filter(pred).len() > 0 {
        lemma_filter_first(init, pred);
        let k = choose|k: int|
            0 <= k < init.len() && init[k] == init.filter(pred)[0] && pred(init[k]) && forall|
                j: int,
            | 0 <= j < k ==> !pred(#[trigger] init[j]);
        assert(s[k] == s.filter(pred)[0]);
        assert forall|j: int| 0 <= j < k implies !pred(#[trigger] s[j]) by {
            assert(s[j] == init[j]);
        }
    } else {
        let k = s.len() - 1;
        assert forall|j: int| 0 <= j < k implies !pred(#[trigger] s[j]) by {
            assert(s[j] == init[j]);
            if pred(init[j]) {
                init.lemma_filter_contains(pred, j);
            }
        }
        assert(s[k] == s.filter(pred)[0]);
    }
}

/// The document announced at startup is the earliest argument, after the
/// program's own path, that names a document: it is one of the arguments, it
/// names a document, and no argument between the program's path and it does.
pub proof fn lemma_first_document_is_earliest(args: Seq<Seq<char>>)
    requires
        document_args(args).len() > 0,
    ensures
        exists|k: int|
            1 <= k < args.len() && args[k] == document_args(args)[0] && is_document_path(args[k])
                && forall|j: int| 1 <= j < k ==> !is_document_path(#[trigger] args[j]),
{
    let pred = |p: Seq<char>| is_document_path(p);
    let rest = args.skip(1);
    lemma_filter_first(rest, pred);
    let k = choose|k: int|
        0 <= k < rest.len() && rest[k] == rest.filter(pred)[0] && pred(rest[k]) && forall|j: int|
            0 <= j < k ==> !pred(#[trigger] rest[j]);
    assert(args[k + 1] == rest[k]);
    assert forall|j: int| 1 <= j < k + 1 implies !is_document_path(#[trigger] args[j]) by {
        assert(args[j] == rest[j - 1]);
    }
}

} // verus!
