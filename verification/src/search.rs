//! Searching the log files for a query, through the `grep` crates, with the
//! results written as JSON lines.
use vstd::prelude::*;
use vstd::utf8::{decode_utf8, valid_utf8};
use grep_regex::RegexMatcher;
use grep_searcher::Searcher;

verus! {

/// `grep_regex::RegexMatcher`, a compiled search query.
#[verifier::external_type_specification]
#[verifier::external_body]
pub struct ExRegexMatcher(grep_regex::RegexMatcher);

/// `grep_regex::Error`, the reason a query does not compile.
#[verifier::external_type_specification]
#[verifier::external_body]
pub struct ExGrepRegexError(grep_regex::Error);

/// `std::string::FromUtf8Error`, bytes that are not UTF-8.
#[verifier::external_type_specification]
#[verifier::external_body]
pub struct ExFromUtf8Error(std::string::FromUtf8Error);

/// `String::from_utf8` accepts exactly the valid UTF-8 byte sequences and
/// then holds the characters they encode.
pub assume_specification[ String::from_utf8 ](vec: Vec<u8>) -> (r: Result<
    String,
    std::string::FromUtf8Error,
>)
    ensures
        r is Ok <==> valid_utf8(vec@),
        r matches Ok(s) ==> s@ == decode_utf8(vec@),
;

/// Whether `grep_regex::RegexMatcher::new` accepts `query`.
pub uninterp spec fn grep_query_compiles(query: Seq<char>) -> bool;

/// Whether `output` is what a `grep_printer::JSON` printer can write when the
/// query `query`, compiled by `grep_regex::RegexMatcher::new`, searches
/// `contents` with a default `grep_searcher::Searcher` into the printer's
/// sink for the path `name`.  This is a relation, not a function: the
/// printed end record carries the time the search took, so several outputs
/// can stand in it for the same search.
pub uninterp spec fn grep_printed(
    query: Seq<char>,
    name: Seq<char>,
    contents: Seq<u8>,
    output: Seq<u8>,
) -> bool;

/// Compiles the search query with `grep_regex::RegexMatcher::new`; whether
/// it compiles depends on the query alone, named by `grep_query_compiles`.
#[verifier::external_body]
pub(crate) fn compile_query(query: &str) -> (r: Result<RegexMatcher, grep_regex::Error>)
    ensures
        r is Ok <==> grep_query_compiles(query@),
{
    RegexMatcher::new(query)
}

/// Compiles `query` with `grep_regex::RegexMatcher::new` and searches
/// `contents`, the bytes of the file `name`, with a default
/// `grep_searcher::Searcher` (`search_slice`) into a `grep_printer::JSON`
/// printer's sink for that path; hands back what the printer wrote.  The
/// search itself cannot fail here: `search_slice` fails only on a
/// configuration mismatch (none with default settings) or on an error
/// writing to the sink, and the printer writes to a `Vec`.  What it writes
/// is serde_json text with line ends, so UTF-8.
#[verifier::external_body]
pub(crate) fn search_file_json(query: &str, name: &str, contents: &[u8]) -> (r: Result<
    Vec<u8>,
    grep_regex::Error,
>)
    ensures
        r is Ok <==> grep_query_compiles(query@),
        r matches Ok(o) ==> valid_utf8(o@) && grep_printed(query@, name@, contents@, o@),
{
    let m = RegexMatcher::new(query)?;
    let mut printer = grep_printer::JSON::new(Vec::new());
    let mut searcher = Searcher::new();
    let _written = searcher.search_slice(&m, contents, printer.sink_with_path(&m, name));
    Ok(printer.into_inner())
}

/// A search query that compiles.
pub struct GrepQuery {
    text: String,
}

impl GrepQuery {
    /// The query compiles.
    #[verifier::type_invariant]
    closed spec fn compiles(self) -> bool {
        grep_query_compiles(self.text@)
    }

    /// The text of the query.
    pub closed spec fn text(self) -> Seq<char> {
        self.text@
    }

    /// The query `query`, when it compiles; the compile error otherwise.
    pub fn new(query: &str) -> (r: Result<GrepQuery, grep_regex::Error>)
        ensures
            r is Ok <==> grep_query_compiles(query@),
            r matches Ok(q) ==> q.text() == query@,
    {
        match compile_query(query) {
            Ok(_) => Ok(GrepQuery { text: String::from_str(query) }),
            Err(e) => Err(e),
        }
    }
}

/// The byte views of a list of byte vectors.
pub open spec fn byte_views(v: Seq<Vec<u8>>) -> Seq<Seq<u8>> {
    v.map_values(|x: Vec<u8>| x@)
}

/// The outputs one after the other.
pub open spec fn joined_bytes(outs: Seq<Seq<u8>>) -> Seq<u8>
    decreases outs.len(),
{
    if outs.len() == 0 {
        Seq::<u8>::empty()
    } else {
        joined_bytes(outs.drop_last()) + outs.last()
    }
}

/// The text of the outputs one after the other, when it is UTF-8.
pub open spec fn grep_text(outs: Seq<Seq<u8>>) -> Option<Seq<char>> {
    if valid_utf8(joined_bytes(outs)) {
        Some(decode_utf8(joined_bytes(outs)))
    } else {
        None
    }
}

/// UTF-8 pieces stay UTF-8 when put one after the other.
proof fn lemma_joined_valid(outs: Seq<Seq<u8>>)
    requires
        forall|i: int| 0 <= i < outs.len() ==> valid_utf8(#[trigger] outs[i]),
    ensures
        valid_utf8(joined_bytes(outs)),
    decreases outs.len(),
{
    if outs.len() > 0 {
        lemma_joined_valid(outs.drop_last());
        assert(valid_utf8(outs[outs.len() - 1]));
        vstd::utf8::valid_utf8_concat(joined_bytes(outs.drop_last()), outs.last());
    }
}

/// The text of the search outputs `outs`, one file after another, when it
/// is UTF-8.
pub fn join_outputs(outs: &Vec<Vec<u8>>) -> (r: Option<String>)
    ensures
        r is Some <==> grep_text(byte_views(outs@)) is Some,
        r matches Some(s) ==> grep_text(byte_views(outs@)) == Some(s@),
{
    let mut all: Vec<u8> = Vec::new();
    let mut i: usize = 0;
    while i < outs.len()
        invariant
            i <= outs@.len(),
            all@ == joined_bytes(byte_views(outs@).take(i as int)),
        decreases outs@.len() - i,
    {
        let piece = &outs[i];
        let ghost before = all@;
        let mut k: usize = 0;
        while k < piece.len()
            invariant
                k <= piece@.len(),
                all@ == before + piece@.take(k as int),
            decreases piece@.len() - k,
        {
            all.push(piece[k]);
            k += 1;
            assert(before + piece@.take(k as int) =~= (before + piece@.take(k - 1)).push(
                piece@[k - 1],
            ));
        }
        assert(piece@.take(k as int) =~= piece@);
        assert(byte_views(outs@).take(i + 1).drop_last() =~= byte_views(outs@).take(i as int));
        i += 1;
    }
    assert(byte_views(outs@).take(i as int) =~= byte_views(outs@));
    match String::from_utf8(all) {
        Ok(s) => Some(s),
        Err(_) => None,
    }
}

/// The matches of the query `q` in `files` (each a name and its bytes, in
/// the order to list them), as JSON lines from one file after another: the
/// text of one printed output per file, each what the search of that file
/// prints.
pub fn grep_files(q: &GrepQuery, files: &Vec<(String, Vec<u8>)>) -> (r: String)
    ensures
        exists|outs: Seq<Seq<u8>>|
            #![trigger joined_bytes(outs)]
            {
                &&& outs.len() == files@.len()
                &&& forall|i: int|
                    0 <= i < files@.len() ==> #[trigger] grep_printed(
                        q.text(),
                        files@[i].0@,
                        files@[i].1@,
                        outs[i],
                    ) && valid_utf8(outs[i])
                &&& valid_utf8(joined_bytes(outs))
                &&& r@ == decode_utf8(joined_bytes(outs))
            },
        files@.len() == 0 ==> r@ == Seq::<char>::empty(),
{
    proof {
        use_type_invariant(q);
    }
    let mut outs: Vec<Vec<u8>> = Vec::new();
    let mut i: usize = 0;
    while i < files.len()
        invariant
            i <= files@.len(),
            outs@.len() == i,
            grep_query_compiles(q.text()),
            forall|k: int|
                0 <= k < i ==> #[trigger] grep_printed(
                    q.text(),
                    files@[k].0@,
                    files@[k].1@,
                    outs@[k]@,
                ) && valid_utf8(outs@[k]@),
        decreases files@.len() - i,
    {
        let (name, contents) = &files[i];
        let out = match search_file_json(q.text.as_str(), name.as_str(), contents.as_slice()) {
            Ok(out) => out,
            Err(_) => {
                assert(false);
                Vec::new()
            },
        };
        outs.push(out);
        i += 1;
    }
    let ghost views = byte_views(outs@);
    assert forall|k: int| 0 <= k < views.len() implies valid_utf8(#[trigger] views[k]) by {
        assert(views[k] == outs@[k]@);
        assert(grep_printed(q.text(), files@[k].0@, files@[k].1@, outs@[k]@));
    }
    proof {
        lemma_joined_valid(views);
    }
    let text = match join_outputs(&outs) {
        Some(s) => s,
        None => {
            assert(false);
            String::new()
        },
    };
    assert forall|k: int| 0 <= k < files@.len() implies #[trigger] grep_printed(
        q.text(),
        files@[k].0@,
        files@[k].1@,
        views[k],
    ) && valid_utf8(views[k]) by {
        assert(views[k] == outs@[k]@);
        assert(grep_printed(q.text(), files@[k].0@, files@[k].1@, outs@[k]@));
    }
    proof {
        if files@.len() == 0 {
            assert(views =~= Seq::<Seq<u8>>::empty());
            assert(joined_bytes(views) =~= Seq::<u8>::empty());
        }
    }
    text
}

} // verus!
