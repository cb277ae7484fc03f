//! The full-text queries of keyword and semantic search.

use crate::text::{
    chars_to_string, join, join_chars, lemma_join_first, lemma_join_last, lemma_join_part, occurs_at,
    to_chars, views, words, words_chars,
};
use vstd::prelude::*;

verus! {

/// Each word of `ws` followed by `*`, a prefix match in full-text search.
pub open spec fn prefix_terms(ws: Seq<Seq<char>>) -> Seq<Seq<char>> {
    ws.map_values(|w: Seq<char>| w.push('*'))
}

/// The full-text query of a keyword search: every word of the query as a
/// prefix, all of them required; none for a query without words.
pub open spec fn keyword_query_of(query: Seq<char>) -> Option<Seq<char>> {
    if words(query).len() == 0 {
        None
    } else {
        Some(join(prefix_terms(words(query)), " AND "@))
    }
}

/// Each prefix term is its word with `*` appended.
proof fn lemma_prefix_terms_form(ws: Seq<Seq<char>>)
    requires
        ws.len() > 0,
    ensures
        prefix_terms(ws) =~= ws.map_values(|w: Seq<char>| w + seq!['*']),
{
    let terms = prefix_terms(ws);
    assert forall|i: int| 0 <= i < ws.len() implies terms[i] =~= ws[i] + seq!['*'] by {}
}

/// The joined prefix terms begin with the first word and `*`.
proof fn lemma_prefix_terms_first(ws: Seq<Seq<char>>)
    requires
        ws.len() > 0,
    ensures
        ws[0].push('*').is_prefix_of(join(prefix_terms(ws), " AND "@)),
{
    let terms = prefix_terms(ws);
    lemma_join_first(terms, " AND "@);
}

/// The joined prefix terms end with the last word and `*`.
proof fn lemma_prefix_terms_last(ws: Seq<Seq<char>>)
    requires
        ws.len() > 0,
    ensures
        ws.last().push('*').is_suffix_of(join(prefix_terms(ws), " AND "@)),
{
    let terms = prefix_terms(ws);
    lemma_join_last(terms, " AND "@);
}

/// The joined prefix terms end in `*`.
proof fn lemma_prefix_terms_star(ws: Seq<Seq<char>>)
    requires
        ws.len() > 0,
    ensures
        join(prefix_terms(ws), " AND "@).last() == '*',
{
    let terms = prefix_terms(ws);
    lemma_join_last(terms, " AND "@);
    let r = join(terms, " AND "@);
    let t = terms.last();
    assert(t == ws.last().push('*'));
    assert(t[t.len() - 1] == '*');
    assert(r.subrange(r.len() - t.len(), r.len() as int)[t.len() - 1] == r[r.len() - 1]);
}

/// Each word followed by `*` occurs in the joined prefix terms.
proof fn lemma_prefix_terms_each(ws: Seq<Seq<char>>, i: int) -> (p: int)
    requires
        0 <= i < ws.len(),
    ensures
        occurs_at(join(prefix_terms(ws), " AND "@), ws[i].push('*'), p),
{
    let terms = prefix_terms(ws);
    let p = lemma_join_part(terms, " AND "@, i);
    assert(terms[i] == ws[i].push('*'));
    p
}

/// A keyword query with words asks for each of them as a prefix: it begins
/// with the first word and `*`, ends with the last word and `*`, and for a
/// single word is that word and `*`. A query without words gives no full-text
/// query.
pub proof fn lemma_keyword_query(query: Seq<char>)
    ensures
        words(query).len() == 0 ==> keyword_query_of(query) is None,
        words(query).len() > 0 ==> words(query)[0].push('*').is_prefix_of(
            keyword_query_of(query)->0,
        ),
        words(query).len() > 0 ==> words(query).last().push('*').is_suffix_of(
            keyword_query_of(query)->0,
        ),
        words(query).len() > 0 ==> keyword_query_of(query)->0.last() == '*',
        words(query).len() == 1 ==> keyword_query_of(query) == Some(words(query)[0].push('*')),
{
    let ws = words(query);
    if ws.len() > 0 {
        lemma_prefix_terms_first(ws);
        lemma_prefix_terms_last(ws);
        lemma_prefix_terms_star(ws);
        if ws.len() == 1 {
            assert(prefix_terms(ws) =~= seq![ws[0].push('*')]);
        }
    }
}

/// Every word of a query, followed by `*`, occurs in its keyword query; the
/// result is a position where it does.
pub proof fn lemma_keyword_query_word(query: Seq<char>, i: int) -> (p: int)
    requires
        0 <= i < words(query).len(),
    ensures
        keyword_query_of(query) is Some,
        occurs_at(keyword_query_of(query)->0, words(query)[i].push('*'), p),
{
    lemma_prefix_terms_each(words(query), i)
}

/// A keyword query with words is exactly its words, each followed by `*`,
/// joined by " AND ".
pub proof fn lemma_keyword_query_form(query: Seq<char>)
    requires
        words(query).len() > 0,
    ensures
        keyword_query_of(query) == Some(
            join(words(query).map_values(|w: Seq<char>| w + seq!['*']), " AND "@),
        ),
{
    lemma_prefix_terms_form(words(query));
}

/// The full-text query of a semantic search: any of the words of the query;
/// none for a query without words.
pub open spec fn semantic_query_of(query: Seq<char>) -> Option<Seq<char>> {
    if words(query).len() == 0 {
        None
    } else {
        Some(join(words(query), " OR "@))
    }
}

/// A semantic query with words asks for any of them: it begins with the first
/// word, ends with the last, holds every word, and for a single word is that
/// word. A query without words gives no full-text query.
pub proof fn lemma_semantic_query(query: Seq<char>)
    ensures
        words(query).len() == 0 ==> semantic_query_of(query) is None,
        words(query).len() > 0 ==> words(query)[0].is_prefix_of(semantic_query_of(query)->0),
        words(query).len() > 0 ==> words(query).last().is_suffix_of(semantic_query_of(query)->0),
        words(query).len() == 1 ==> semantic_query_of(query) == Some(words(query)[0]),
{
    let ws = words(query);
    if ws.len() > 0 {
        lemma_join_first(ws, " OR "@);
        lemma_join_last(ws, " OR "@);
    }
}

/// Every word of a query occurs in its semantic query; the result is a
/// position where it does.
pub proof fn lemma_semantic_query_word(query: Seq<char>, i: int) -> (p: int)
    requires
        0 <= i < words(query).len(),
    ensures
        semantic_query_of(query) is Some,
        occurs_at(semantic_query_of(query)->0, words(query)[i], p),
{
    lemma_join_part(words(query), " OR "@, i)
}

/// The full-text query of a keyword search, `None` where the query has no words.
pub fn keyword_match_query(query: &str) -> (r: Option<String>)
    ensures
        crate::models::opt_view(r) == keyword_query_of(query@),
{
    let cs = to_chars(query);
    let ws = words_chars(cs.as_slice());
    if ws.len() == 0 {
        return None;
    }
    let ghost wv = views(ws@);
    let mut terms: Vec<Vec<char>> = Vec::new();
    let mut k: usize = 0;
    while k < ws.len()
        invariant
            k <= ws@.len(),
            wv == views(ws@),
            views(terms@) == prefix_terms(wv.take(k as int)),
        decreases ws@.len() - k,
    {
        let mut t = ws[k].clone();
        assert(t@ == ws@[k as int]@);
        t.push('*');
        let ghost before = views(terms@);
        assert(t@ == wv[k as int].push('*'));
        terms.push(t);
        assert(views(terms@) =~= before.push(wv[k as int].push('*')));
        assert(prefix_terms(wv.take(k + 1)) =~= prefix_terms(wv.take(k as int)).push(
            wv[k as int].push('*'),
        ));
        assert(views(terms@) =~= prefix_terms(wv.take(k + 1)));
        k = k + 1;
    }
    assert(wv.take(ws@.len() as int) =~= wv);
    let sep = [' ', 'A', 'N', 'D', ' '];
    proof {
        reveal_strlit(" AND ");
    }
    assert(sep@ =~= " AND "@);
    let joined = join_chars(&terms, &sep);
    Some(chars_to_string(joined.as_slice()))
}

/// The full-text query of a semantic search, `None` where the query has no words.
pub fn semantic_match_query(query: &str) -> (r: Option<String>)
    ensures
        crate::models::opt_view(r) == semantic_query_of(query@),
{
    let cs = to_chars(query);
    let ws = words_chars(cs.as_slice());
    if ws.len() == 0 {
        return None;
    }
    let sep = [' ', 'O', 'R', ' '];
    proof {
        reveal_strlit(" OR ");
    }
    assert(sep@ =~= " OR "@);
    let joined = join_chars(&ws, &sep);
    Some(chars_to_string(joined.as_slice()))
}

} // verus!
