//! The decisions around the semantic index: which files are indexed, what a document
//! is titled, how its chunks are batched for embedding, whether a search may use the
//! index (the model must match the one that built it), and how results are shown.
use vstd::prelude::*;
use crate::text::{
    append_text, byte_len, byte_len_up_to, chars_of, contains, contains_chars, string_of, string_of_range, trim, trim_chars, same_text,
};
use crate::decimal::{decimal, format_dimension};
use crate::chunking::{chunk_text, chunk_views, is_chunking};

verus! {

/// Path fragments that keep a file out of the index: index directories, archives,
/// backups, logs and scripts (with either path separator).
pub open spec fn excluded_fragments() -> Seq<Seq<char>> {
    seq![
        ".tantivy_index"@,
        ".semantic_index"@,
        "\\archive\\"@,
        "/archive/"@,
        "\\backups\\"@,
        "/backups/"@,
        "\\logs\\"@,
        "/logs/"@,
        "\\scripts\\"@,
        "/scripts/"@,
    ]
}

/// A path is indexed when none of the excluded fragments occurs in it.
pub open spec fn indexable_path(path: Seq<char>) -> bool {
    forall|i: int| 0 <= i < excluded_fragments().len() ==> !contains(path, #[trigger] excluded_fragments()[i])
}

fn path_has(path: &Vec<char>, fragment: &str) -> (b: bool)
    ensures
        b == contains(path@, fragment@),
{
    let f = chars_of(fragment);
    contains_chars(path, &f)
}

/// Whether a file at `path` (its text, as `to_string_lossy` gives it) belongs in the index.
pub fn should_index(path: &str) -> (b: bool)
    ensures
        b == indexable_path(path@),
{
    let p = chars_of(path);
    let r = !(path_has(&p, ".tantivy_index") || path_has(&p, ".semantic_index") || path_has(
        &p,
        "\\archive\\",
    ) || path_has(&p, "/archive/") || path_has(&p, "\\backups\\") || path_has(&p, "/backups/")
        || path_has(&p, "\\logs\\") || path_has(&p, "/logs/") || path_has(&p, "\\scripts\\")
        || path_has(&p, "/scripts/"));
    assert(r == indexable_path(path@)) by {
        let fr = excluded_fragments();
        if !r {
            assert(exists|i: int| 0 <= i < fr.len() && contains(path@, #[trigger] fr[i])) by {
                if contains(path@, ".tantivy_index"@) {
                    assert(contains(path@, fr[0]));
                } else if contains(path@, ".semantic_index"@) {
                    assert(contains(path@, fr[1]));
                } else if contains(path@, "\\archive\\"@) {
                    assert(contains(path@, fr[2]));
                } else if contains(path@, "/archive/"@) {
                    assert(contains(path@, fr[3]));
                } else if contains(path@, "\\backups\\"@) {
                    assert(contains(path@, fr[4]));
                } else if contains(path@, "/backups/"@) {
                    assert(contains(path@, fr[5]));
                } else if contains(path@, "\\logs\\"@) {
                    assert(contains(path@, fr[6]));
                } else if contains(path@, "/logs/"@) {
                    assert(contains(path@, fr[7]));
                } else if contains(path@, "\\scripts\\"@) {
                    assert(contains(path@, fr[8]));
                } else {
                    assert(contains(path@, fr[9]));
                }
            }
        }
    }
    r
}

/// Only Markdown and plain-text files are indexed.
pub open spec fn indexable_extension(ext: Option<Seq<char>>) -> bool {
    match ext {
        Some(e) => e == "md"@ || e == "txt"@,
        None => false,
    }
}

/// Whether a file with extension `ext` (none when it has none or it is not UTF-8) is indexed.
pub fn is_indexable_extension(ext: Option<&str>) -> (b: bool)
    ensures
        b == indexable_extension(match ext {
            Some(e) => Some(e@),
            None => None,
        }),
{
    match ext {
        Some(e) => same_text(e, "md") || same_text(e, "txt"),
        None => false,
    }
}

/// The first line of a text, as `str::lines` gives it: up to the first line feed,
/// without a carriage return just before it; none for an empty text.
pub open spec fn first_line(s: Seq<char>) -> Option<Seq<char>> {
    if s.len() == 0 {
        None
    } else if exists|i: int| 0 <= i < s.len() && s[i] == '\n' {
        let p = choose|i: int|
            0 <= i < s.len() && s[i] == '\n' && forall|j: int| 0 <= j < i ==> s[j] != '\n';
        let l = s.take(p);
        Some(
            if l.len() > 0 && l.last() == '\r' {
                l.drop_last()
            } else {
                l
            },
        )
    } else {
        Some(s)
    }
}

/// `s` without its leading `#` characters.
pub open spec fn without_hashes(s: Seq<char>) -> Seq<char>
    decreases s.len(),
{
    if s.len() > 0 && s[0] == '#' {
        without_hashes(s.drop_first())
    } else {
        s
    }
}

pub open spec fn starts_with(s: Seq<char>, prefix: Seq<char>) -> bool {
    prefix.len() <= s.len() && s.take(prefix.len() as int) == prefix
}

/// A document's title: its first line without leading `#` and surrounding white space,
/// when that is not empty and is not a `---` rule; otherwise the file's stem, or
/// `Untitled` when it has none.
pub open spec fn title_of(content: Seq<char>, stem: Option<Seq<char>>) -> Seq<char> {
    let candidate = match first_line(content) {
        Some(l) => Some(trim(without_hashes(l))),
        None => None,
    };
    match candidate {
        Some(t) if t.len() > 0 && !starts_with(t, "---"@) => t,
        _ => match stem {
            Some(s) => s,
            None => "Untitled"@,
        },
    }
}

fn first_line_exec(chars: &Vec<char>) -> (r: Option<Vec<char>>)
    ensures
        match r {
            Some(l) => first_line(chars@) == Some(l@),
            None => first_line(chars@) is None,
        },
{
    if chars.len() == 0 {
        return None;
    }
    let mut i: usize = 0;
    while i < chars.len() && chars[i] != '\n'
        invariant
            i <= chars.len(),
            forall|j: int| 0 <= j < i ==> chars@[j] != '\n',
        decreases chars.len() - i,
    {
        i = i + 1;
    }
    let mut end = i;
    if i < chars.len() && end > 0 && chars[end - 1] == '\r' {
        end = end - 1;
    }
    let mut l: Vec<char> = Vec::new();
    let mut k: usize = 0;
    while k < end
        invariant
            end <= i <= chars.len(),
            k <= end,
            l@ == chars@.take(k as int),
        decreases end - k,
    {
        l.push(chars[k]);
        k = k + 1;
        assert(l@ =~= chars@.take(k as int));
    }
    proof {
        if i < chars.len() {
            let p = choose|q: int|
                0 <= q < chars@.len() && chars@[q] == '\n' && forall|j: int|
                    0 <= j < q ==> chars@[j] != '\n';
            assert(chars@[i as int] == '\n');
            if p < i {
                assert(chars@[p] != '\n');
            }
            if p > i {
                assert(chars@[i as int] != '\n');
            }
            assert(p == i);
            if i > 0 {
                assert(chars@.take(i as int).drop_last() =~= chars@.take(i - 1));
                assert(chars@.take(i as int).last() == chars@[i - 1]);
            }
        } else {
            assert(chars@.take(i as int) =~= chars@);
        }
    }
    Some(l)
}

fn strip_hashes(l: &Vec<char>) -> (r: Vec<char>)
    ensures
        r@ == without_hashes(l@),
{
    let mut i: usize = 0;
    assert(l@.skip(0) =~= l@);
    while i < l.len() && l[i] == '#'
        invariant
            i <= l.len(),
            without_hashes(l@) == without_hashes(l@.skip(i as int)),
        decreases l.len() - i,
    {
        assert(l@.skip(i as int).drop_first() =~= l@.skip(i + 1));
        i = i + 1;
    }
    let mut r: Vec<char> = Vec::new();
    let mut k = i;
    while k < l.len()
        invariant
            i <= k <= l.len(),
            r@ == l@.subrange(i as int, k as int),
        decreases l.len() - k,
    {
        r.push(l[k]);
        k = k + 1;
        assert(r@ =~= l@.subrange(i as int, k as int));
    }
    assert(r@ =~= l@.skip(i as int));
    r
}

fn starts_with_rule(t: &Vec<char>) -> (b: bool)
    ensures
        b == starts_with(t@, "---"@),
{
    proof {
        reveal_strlit("---");
    }
    let b = t.len() >= 3 && t[0] == '-' && t[1] == '-' && t[2] == '-';
    proof {
        if t.len() >= 3 {
            if b {
                assert(t@.take(3) =~= "---"@);
            } else {
                assert(t@.take(3) != "---"@) by {
                    if t@[0] != '-' {
                        assert(t@.take(3)[0] != "---"@[0]);
                    } else if t@[1] != '-' {
                        assert(t@.take(3)[1] != "---"@[1]);
                    } else {
                        assert(t@.take(3)[2] != "---"@[2]);
                    }
                }
            }
        }
    }
    b
}

/// The title of a document with text `content` and file stem `stem`.
pub fn document_title(content: &str, stem: Option<&str>) -> (t: String)
    ensures
        t@ == title_of(
            content@,
            match stem {
                Some(s) => Some(s@),
                None => None,
            },
        ),
{
    let chars = chars_of(content);
    match first_line_exec(&chars) {
        Some(l) => {
            let h = strip_hashes(&l);
            let t = trim_chars(&h);
            if t.len() > 0 && !starts_with_rule(&t) {
                return string_of(&t);
            }
        },
        None => {},
    }
    match stem {
        Some(s) => s.to_owned(),
        None => "Untitled".to_owned(),
    }
}

/// A chunk of a document, ready to be embedded and stored.
pub struct IndexChunk {
    pub path: String,
    pub title: String,
    pub content: String,
    pub start: usize,
    pub end: usize,
}

impl View for IndexChunk {
    type V = (Seq<char>, Seq<char>, Seq<char>, int, int);

    open spec fn view(&self) -> Self::V {
        (self.path@, self.title@, self.content@, self.start as int, self.end as int)
    }
}

pub open spec fn index_chunks_view(v: Seq<IndexChunk>) -> Seq<(Seq<char>, Seq<char>, Seq<char>, int, int)> {
    v.map_values(|c: IndexChunk| c@)
}

/// Window and overlap (in characters) with which documents are chunked for the index.
pub const INDEX_CHUNK_SIZE: usize = 512;

pub const INDEX_CHUNK_OVERLAP: usize = 100;

/// Number of pending chunks at which a batch is handed over for embedding.
pub const BATCH_THRESHOLD: usize = 100;

/// The chunks of one document, each labelled with the document's path and title.
pub open spec fn labelled(
    path: Seq<char>,
    title: Seq<char>,
    chunks: Seq<(Seq<char>, int, int)>,
) -> Seq<(Seq<char>, Seq<char>, Seq<char>, int, int)> {
    chunks.map_values(|c: (Seq<char>, int, int)| (path, title, c.0, c.1, c.2))
}

/// Chunks gathered while the index is rebuilt, handed over in batches for embedding.
pub struct ReindexBatch {
    pending: Vec<IndexChunk>,
    files: usize,
}

impl ReindexBatch {
    /// The chunks waiting to be handed over, in the order they were added.
    pub closed spec fn pending_view(&self) -> Seq<(Seq<char>, Seq<char>, Seq<char>, int, int)> {
        index_chunks_view(self.pending@)
    }

    /// Number of documents added.
    pub closed spec fn files_view(&self) -> nat {
        self.files as nat
    }

    /// Fewer than a batch's worth of chunks wait at any time.
    pub closed spec fn wf(&self) -> bool {
        self.pending.len() < BATCH_THRESHOLD
    }

    pub fn new() -> (b: Self)
        ensures
            b.wf(),
            b.pending_view() == Seq::<(Seq<char>, Seq<char>, Seq<char>, int, int)>::empty(),
            b.files_view() == 0,
    {
        let b = ReindexBatch { pending: Vec::new(), files: 0 };
        assert(index_chunks_view(b.pending@) =~= Seq::<(Seq<char>, Seq<char>, Seq<char>, int, int)>::empty());
        b
    }

    /// Number of documents added so far.
    pub fn file_count(&self) -> (n: usize)
        ensures
            n == self.files_view(),
    {
        self.files
    }

    /// Adds a document: its chunks join the pending ones, and when a batch's worth has
    /// gathered, all pending chunks are handed over. Nothing is lost or reordered: what is
    /// handed over followed by what stays pending is what was pending followed by the
    /// document's chunks.
    pub fn add_document(&mut self, path: &str, title: &str, content: &str) -> (flushed: Option<Vec<IndexChunk>>)
        requires
            old(self).wf(),
            old(self).files_view() < usize::MAX,
        ensures
            final(self).wf(),
            final(self).files_view() == old(self).files_view() + 1,
            exists|chunks: Seq<(Seq<char>, int, int)>| #![auto]
                is_chunking(content@, INDEX_CHUNK_SIZE as int, INDEX_CHUNK_OVERLAP as int, chunks)
                && (match flushed {
                    Some(b) => index_chunks_view(b@) == old(self).pending_view() + labelled(path@, title@, chunks)
                        && final(self).pending_view().len() == 0
                        && index_chunks_view(b@).len() >= BATCH_THRESHOLD,
                    None => final(self).pending_view() == old(self).pending_view() + labelled(path@, title@, chunks),
                }),
    {
        let pieces = chunk_text(content, INDEX_CHUNK_SIZE, INDEX_CHUNK_OVERLAP);
        let ghost chunks = chunk_views(pieces@);
        let ghost before = index_chunks_view(self.pending@);
        let mut i: usize = 0;
        while i < pieces.len()
            invariant
                chunks == chunk_views(pieces@),
                self.files == old(self).files,
                self.files < usize::MAX,
                i <= pieces.len(),
                index_chunks_view(self.pending@) == before + labelled(path@, title@, chunks.take(i as int)),
            decreases pieces.len() - i,
        {
            let piece = &pieces[i];
            let c = IndexChunk {
                path: path.to_owned(),
                title: title.to_owned(),
                content: piece.0.clone(),
                start: piece.1,
                end: piece.2,
            };
            let ghost prev = self.pending@;
            self.pending.push(c);
            assert(index_chunks_view(self.pending@) =~= before + labelled(path@, title@, chunks.take(i + 1))) by {
                assert(index_chunks_view(self.pending@) =~= index_chunks_view(prev).push(c@));
                assert(chunks.take(i + 1) =~= chunks.take(i as int).push(chunks[i as int]));
            }
            i = i + 1;
        }
        assert(chunks.take(pieces.len() as int) =~= chunks);
        self.files = self.files + 1;
        if self.pending.len() >= BATCH_THRESHOLD {
            let mut batch: Vec<IndexChunk> = Vec::new();
            std::mem::swap(&mut batch, &mut self.pending);
            assert(index_chunks_view(self.pending@) =~= Seq::<(Seq<char>, Seq<char>, Seq<char>, int, int)>::empty());
            Some(batch)
        } else {
            None
        }
    }

    /// Hands over the chunks still pending, if there are any.
    pub fn finish(self) -> (rest: Option<Vec<IndexChunk>>)
        ensures
            match rest {
                Some(b) => index_chunks_view(b@) == self.pending_view() && b.len() > 0,
                None => self.pending_view().len() == 0,
            },
    {
        if self.pending.len() > 0 {
            Some(self.pending)
        } else {
            None
        }
    }
}

/// The error a search gets when the index was not built with the requested model
/// (or was never built).
pub open spec fn model_mismatch_message(stored: Option<(Seq<char>, nat)>, requested: Seq<char>) -> Option<
    Seq<char>,
> {
    match stored {
        None => Some("Store has no metadata. Run semantic_reindex first."@),
        Some((m, d)) => if m == requested {
            None
        } else {
            Some(
                "Store was built with model '"@ + m + "' (dim "@ + decimal(d) + "), you requested '"@
                    + requested + "'. Run semantic_reindex to rebuild."@,
            )
        },
    }
}

/// Whether a search with `model` may use an index whose metadata is `stored`: only with
/// the model that built it; otherwise the error says which model that was.
pub fn check_store_model(stored: &Option<(String, usize)>, model: &str) -> (r: Result<(), String>)
    ensures
        r is Ok <==> (stored matches Some(s) && s.0@ == model@),
        match r {
            Ok(_) => model_mismatch_message(
                match stored {
                    Some(s) => Some((s.0@, s.1 as nat)),
                    None => None,
                },
                model@,
            ) is None,
            Err(e) => model_mismatch_message(
                match stored {
                    Some(s) => Some((s.0@, s.1 as nat)),
                    None => None,
                },
                model@,
            ) == Some(e@),
        },
{
    match stored {
        None => Err("Store has no metadata. Run semantic_reindex first.".to_owned()),
        Some((m, d)) => {
            if same_text(m.as_str(), model) {
                Ok(())
            } else {
                let mut e = "Store was built with model '".to_owned();
                append_text(&mut e, m.as_str());
                append_text(&mut e, "' (dim ");
                let dim = format_dimension(*d);
                append_text(&mut e, dim.as_str());
                append_text(&mut e, "), you requested '");
                append_text(&mut e, model);
                append_text(&mut e, "'. Run semantic_reindex to rebuild.");
                Err(e)
            }
        },
    }
}

/// The error a search gets when the query's embedding has another dimension than the
/// index's vectors.
pub open spec fn dimension_mismatch_message(stored: nat, got: nat, model: Seq<char>) -> Seq<char> {
    "Dimension mismatch: store was built with dimension "@ + decimal(stored) + ", model '"@ + model
        + "' returned "@ + decimal(got) + ". Run semantic_reindex to rebuild."@
}

/// Whether a query embedding of dimension `got` (from `model`) can be compared with an
/// index whose vectors have dimension `stored`: only when the dimensions agree.
pub fn check_query_dimension(stored: usize, got: usize, model: &str) -> (r: Result<(), String>)
    ensures
        r is Ok <==> stored == got,
        r matches Err(e) ==> e@ == dimension_mismatch_message(stored as nat, got as nat, model@),
{
    if stored == got {
        Ok(())
    } else {
        let mut e = "Dimension mismatch: store was built with dimension ".to_owned();
        let a = format_dimension(stored);
        append_text(&mut e, a.as_str());
        append_text(&mut e, ", model '");
        append_text(&mut e, model);
        append_text(&mut e, "' returned ");
        let b = format_dimension(got);
        append_text(&mut e, b.as_str());
        append_text(&mut e, ". Run semantic_reindex to rebuild.");
        Err(e)
    }
}

/// A validated search request.
pub struct SearchRequest {
    pub query: String,
    pub model: String,
    pub limit: u64,
}

/// Validates the arguments of a search: a query and a model are required, the limit
/// defaults to 10.
pub fn search_request(query: Option<String>, model: Option<String>, limit: Option<u64>) -> (r: Result<
    SearchRequest,
    String,
>)
    ensures
        match r {
            Ok(req) => query matches Some(q) && model matches Some(m) && req.query@ == q@
                && req.model@ == m@ && req.limit == (match limit {
                Some(l) => l,
                None => 10,
            }),
            Err(e) => (query is None && e@ == "Missing 'query' parameter"@) || (query is Some
                && model is None && e@
                == "Missing 'model' parameter \u{2014} specify the embedding model used at reindex time"@),
        },
        r is Ok <==> query is Some && model is Some,
{
    let q = match query {
        Some(q) => q,
        None => return Err("Missing 'query' parameter".to_owned()),
    };
    let m = match model {
        Some(m) => m,
        None => return Err(
            "Missing 'model' parameter \u{2014} specify the embedding model used at reindex time".to_owned(),
        ),
    };
    let l = match limit {
        Some(l) => l,
        None => 10,
    };
    Ok(SearchRequest { query: q, model: m, limit: l })
}

/// How a result's content is shown: whole when it is at most 200 bytes, else its first
/// 200 characters followed by `...`.
pub open spec fn shown_snippet(content: Seq<char>) -> Seq<char> {
    if byte_len(content) > 200 {
        (if content.len() <= 200 {
            content
        } else {
            content.take(200)
        }) + "..."@
    } else {
        content
    }
}

/// The snippet shown for a search result's content.
pub fn result_snippet(content: &str) -> (s: String)
    ensures
        s@ == shown_snippet(content@),
{
    let chars = chars_of(content);
    match byte_len_up_to(&chars, 200) {
        Some(_) => content.to_owned(),
        None => {
            let n = if chars.len() <= 200 {
                chars.len()
            } else {
                200
            };
            let mut s = string_of_range(&chars, 0, n);
            append_text(&mut s, "...");
            proof {
                if chars.len() <= 200 {
                    assert(chars@.subrange(0, n as int) =~= content@);
                } else {
                    assert(chars@.subrange(0, n as int) =~= content@.take(200));
                }
            }
            s
        },
    }
}

/// The error a rebuild gets when the model's probe embedding is empty.
pub open spec fn empty_embedding_message(model: Seq<char>) -> Seq<char> {
    "Model '"@ + model + "' returned empty embedding. Verify this model supports embeddings."@
}

/// Checks the dimension a model's probe embedding showed: a rebuild needs a non-empty one.
pub fn probe_dimension(model: &str, dimension: usize) -> (r: Result<usize, String>)
    ensures
        match r {
            Ok(d) => dimension > 0 && d == dimension,
            Err(e) => dimension == 0 && e@ == empty_embedding_message(model@),
        },
{
    if dimension == 0 {
        let mut e = "Model '".to_owned();
        append_text(&mut e, model);
        append_text(&mut e, "' returned empty embedding. Verify this model supports embeddings.");
        Err(e)
    } else {
        Ok(dimension)
    }
}

} // verus!
