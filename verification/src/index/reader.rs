//! Reading the index: queries as users write them, and excerpts.

use vstd::prelude::*;
use crate::text::{
    chars_of, holds_text, is_white_space, slice_text, stands_at, stands_at_chars, white_space,
};

verus! {

/// The fields of the index.
pub const F_TITLE: &'static str = "title";

pub const F_BODY: &'static str = "body";

pub const F_URL: &'static str = "url";

pub const F_COLLECTION: &'static str = "collection";

pub const F_TIMESTAMP: &'static str = "indexed_at";

/// The most characters of an excerpt.
pub const MAX_EXCERPT_CHARS: usize = 220;

/// A document as it is stored in the index.
#[derive(Debug, Clone, PartialEq, Eq)]
pub struct ExportedDoc {
    pub collection: String,
    pub url: String,
    pub title: String,
    pub body: String,
    pub indexed_at: i64,
}

// ---------------------------------------------------------------------------
// Queries
// ---------------------------------------------------------------------------

/// A clause may start at position `i` of the query: at its beginning, behind
/// white space, an opening bracket or a sign.
pub open spec fn clause_may_start(q: Seq<char>, i: int) -> bool {
    i == 0 || is_white_space(q[i - 1]) || q[i - 1] == '(' || q[i - 1] == '-' || q[i - 1] == '+'
}

/// A `site:` clause starts at position `i`.
pub open spec fn site_clause_at(q: Seq<char>, i: int) -> bool {
    stands_at(q, "site:"@, i) && clause_may_start(q, i)
}

/// The query from position `i` on, with every `site:` clause outside of quotes
/// made a required clause on the host.
pub open spec fn with_host_clauses(q: Seq<char>, i: int, in_quote: bool) -> Seq<char>
    decreases (if i < q.len() { q.len() - i } else { 0 }),
{
    if i < 0 || i >= q.len() {
        Seq::empty()
    } else if q[i] == '"' {
        seq!['"'] + with_host_clauses(q, i + 1, !in_quote)
    } else if !in_quote && site_clause_at(q, i) {
        "+host:"@ + with_host_clauses(q, i + 5, in_quote)
    } else {
        seq![q[i]] + with_host_clauses(q, i + 1, in_quote)
    }
}

/// Rewrites `site:example.com` to `+host:example.com`. The plus sign makes the
/// clause a required one. What stands in quotes is left alone, and so is a
/// `site:` in the middle of a word.
pub fn rewrite_site_filter(q: &str) -> (r: String)
    ensures
        r@ == with_host_clauses(q@, 0, false),
{
    let v = chars_of(q);
    let site = chars_of("site:");
    proof {
        reveal_strlit("site:");
    }
    let mut out: String = String::new();
    let mut in_quote = false;
    let mut i: usize = 0;
    assert(out@ + with_host_clauses(q@, 0, false) =~= with_host_clauses(q@, 0, false));
    while i < v.len()
        invariant
            i <= v.len(),
            v@ == q@,
            site@ == "site:"@,
            site@.len() == 5,
            out@ + with_host_clauses(q@, i as int, in_quote) == with_host_clauses(q@, 0, false),
        decreases v.len() - i,
    {
        let c: char = v[i];
        let ghost before = out@;
        let ghost rest = with_host_clauses(q@, i as int, in_quote);
        if c == '"' {
            out.push(c);
            in_quote = !in_quote;
            i = i + 1;
            assert(out@ + with_host_clauses(q@, i as int, in_quote) =~= before + rest);
        } else if !in_quote && stands_at_chars(&v, &site, i) && (i == 0 || white_space(v[i - 1])
            || v[i - 1] == '(' || v[i - 1] == '-' || v[i - 1] == '+') {
            out.push_str("+host:");
            i = i + 5;
            assert(out@ + with_host_clauses(q@, i as int, in_quote) =~= before + rest);
        } else {
            out.push(c);
            i = i + 1;
            assert(out@ + with_host_clauses(q@, i as int, in_quote) =~= before + rest);
        }
    }
    assert(out@ + Seq::<char>::empty() =~= out@);
    out
}

/// The start of a text that is shown where there is no better excerpt.
pub fn plain_excerpt(body: &str) -> (r: String)
    ensures
        r@ == if body@.len() > MAX_EXCERPT_CHARS {
            body@.take(MAX_EXCERPT_CHARS as int)
        } else {
            body@
        },
{
    let v = chars_of(body);
    let end: usize = if v.len() > MAX_EXCERPT_CHARS {
        MAX_EXCERPT_CHARS
    } else {
        v.len()
    };
    let r = slice_text(&v, 0, end);
    assert(v@.subrange(0, end as int) =~= v@.take(end as int));
    assert(v@.take(v@.len() as int) =~= v@);
    r
}

/// The excerpt to show: the highlighted one where there is one, else the
/// beginning of the body.
pub fn excerpt(highlighted: Option<String>, body: &str) -> (r: String)
    ensures
        match highlighted {
            Some(h) => r@ == h@,
            None => r@ == if body@.len() > MAX_EXCERPT_CHARS {
                body@.take(MAX_EXCERPT_CHARS as int)
            } else {
                body@
            },
        },
{
    match highlighted {
        Some(h) => h,
        None => plain_excerpt(body),
    }
}

// ---------------------------------------------------------------------------
// Laws
// ---------------------------------------------------------------------------

proof fn lemma_unchanged(q: Seq<char>, i: int, in_quote: bool)
    requires
        0 <= i <= q.len(),
        forall|j: int| i <= j < q.len() ==> !stands_at(q, "site:"@, j),
    ensures
        with_host_clauses(q, i, in_quote) == q.skip(i),
    decreases q.len() - i,
{
    if i < q.len() {
        if q[i] == '"' {
            lemma_unchanged(q, i + 1, !in_quote);
        } else {
            lemma_unchanged(q, i + 1, in_quote);
        }
        assert(seq![q[i]] + q.skip(i + 1) =~= q.skip(i));
    } else {
        assert(q.skip(i) =~= Seq::<char>::empty());
    }
}

/// A query without `site:` is left as it is.
pub proof fn other_queries_are_unchanged(q: Seq<char>)
    requires
        !holds_text(q, "site:"@),
    ensures
        with_host_clauses(q, 0, false) == q,
{
    lemma_unchanged(q, 0, false);
    assert(q.skip(0) =~= q);
}

proof fn lemma_quoted(q: Seq<char>, i: int, end: int)
    requires
        0 <= i <= end <= q.len(),
        forall|j: int| i <= j < end ==> q[j] != '"',
    ensures
        with_host_clauses(q, i, true) == q.subrange(i, end) + with_host_clauses(q, end, true),
    decreases end - i,
{
    if i < end {
        lemma_quoted(q, i + 1, end);
        assert(seq![q[i]] + (q.subrange(i + 1, end) + with_host_clauses(q, end, true))
            =~= q.subrange(i, end) + with_host_clauses(q, end, true));
    } else {
        assert(q.subrange(i, end) + with_host_clauses(q, end, true) =~= with_host_clauses(
            q,
            end,
            true,
        ));
    }
}

/// What stands in quotes is left as it is, whatever it holds.
pub proof fn quoted_text_is_unchanged(q: Seq<char>, i: int, end: int)
    requires
        0 <= i <= end <= q.len(),
        forall|j: int| i <= j < end ==> q[j] != '"',
    ensures
        with_host_clauses(q, i, true) == q.subrange(i, end) + with_host_clauses(q, end, true),
{
    lemma_quoted(q, i, end);
}

/// A `site:` clause outside of quotes becomes a required clause on the host.
pub proof fn site_clauses_are_required(q: Seq<char>, i: int)
    requires
        0 <= i < q.len(),
        site_clause_at(q, i),
    ensures
        with_host_clauses(q, i, false) == "+host:"@ + with_host_clauses(q, i + 5, false),
{
    reveal_strlit("site:");
    assert(q.subrange(i, i + 5)[0] == q[i]);
}

/// A `site:` in the middle of a word is left as it is.
pub proof fn mid_word_is_unchanged(q: Seq<char>, i: int)
    requires
        0 <= i < q.len(),
        !clause_may_start(q, i),
        q[i] != '"',
    ensures
        with_host_clauses(q, i, false) == seq![q[i]] + with_host_clauses(q, i + 1, false),
{
}

proof fn lemma_copied(q: Seq<char>, i: int, in_quote: bool)
    requires
        0 <= i,
        with_host_clauses(q, i, in_quote).len() > 0,
        with_host_clauses(q, i, in_quote)[0] != '+',
        with_host_clauses(q, i, in_quote)[0] != '"',
    ensures
        i < q.len(),
        q[i] == with_host_clauses(q, i, in_quote)[0],
        with_host_clauses(q, i, in_quote) == seq![q[i]] + with_host_clauses(q, i + 1, in_quote),
{
    reveal_strlit("+host:");
}

/// Where the rewritten query goes on with `site:`, so does the query.
proof fn lemma_no_new_clause(q: Seq<char>, i: int, in_quote: bool)
    requires
        0 <= i,
        stands_at(with_host_clauses(q, i, in_quote), "site:"@, 0),
    ensures
        stands_at(q, "site:"@, i),
{
    reveal_strlit("site:");
    let r0 = with_host_clauses(q, i, in_quote);
    let r1 = with_host_clauses(q, i + 1, in_quote);
    let r2 = with_host_clauses(q, i + 2, in_quote);
    let r3 = with_host_clauses(q, i + 3, in_quote);
    let r4 = with_host_clauses(q, i + 4, in_quote);
    let w = r0.subrange(0, 5);
    assert(w[0] == 's' && w[1] == 'i' && w[2] == 't' && w[3] == 'e' && w[4] == ':');
    assert(r0[0] == 's' && r0[1] == 'i' && r0[2] == 't' && r0[3] == 'e' && r0[4] == ':');
    lemma_copied(q, i, in_quote);
    assert(r1[0] == r0[1] && r1[1] == r0[2] && r1[2] == r0[3] && r1[3] == r0[4]);
    lemma_copied(q, i + 1, in_quote);
    assert(r2[0] == r1[1] && r2[1] == r1[2] && r2[2] == r1[3]);
    lemma_copied(q, i + 2, in_quote);
    assert(r3[0] == r2[1] && r3[1] == r2[2]);
    lemma_copied(q, i + 3, in_quote);
    assert(r4[0] == r3[1]);
    lemma_copied(q, i + 4, in_quote);
    assert(q.subrange(i, i + 5) =~= "site:"@);
}

/// What was rewritten stays as it is behind a text that ends like the query
/// before it.
proof fn lemma_rewritten(q: Seq<char>, i: int, in_quote: bool, before: Seq<char>)
    requires
        0 <= i <= q.len(),
        i == 0 <==> before.len() == 0,
        i > 0 ==> before.last() == q[i - 1],
    ensures
        ({
            let rest = with_host_clauses(q, i, in_quote);
            with_host_clauses(before + rest, before.len() as int, in_quote) == rest
        }),
    decreases q.len() - i,
{
    let rest = with_host_clauses(q, i, in_quote);
    let n = before.len() as int;
    if i < q.len() {
        if q[i] != '"' && !in_quote && site_clause_at(q, i) {
            reveal_strlit("site:");
            reveal_strlit("+host:");
            let host = "+host:"@;
            let tail = with_host_clauses(q, i + 5, in_quote);
            let all = before + rest;
            assert(q.subrange(i, i + 5)[4] == q[i + 4]);
            assert((before + host).last() == ':');
            lemma_rewritten(q, i + 5, in_quote, before + host);
            assert(all =~= (before + host) + tail);
            assert forall|k: int| 0 <= k < 6 implies #[trigger] all[n + k] == host[k] && !stands_at(
                all,
                "site:"@,
                n + k,
            ) by {
                if stands_at(all, "site:"@, n + k) {
                    let w = all.subrange(n + k, n + k + 5);
                    assert(w[0] == all[n + k] && w[1] == all[n + k + 1]);
                    if k == 3 {
                        assert(all[n + 4] == host[4]);
                    }
                }
            }
            assert(all[n + 0] == '+' && all[n + 1] == 'h' && all[n + 2] == 'o' && all[n + 3] == 's'
                && all[n + 4] == 't' && all[n + 5] == ':');
            assert(with_host_clauses(all, n + 6, in_quote) == tail);
            assert(with_host_clauses(all, n + 5, in_quote) == seq![':'] + tail);
            assert(with_host_clauses(all, n + 4, in_quote) == seq!['t'] + (seq![':'] + tail));
            assert(with_host_clauses(all, n + 3, in_quote) == seq!['s'] + (seq!['t'] + (seq![':']
                + tail)));
            assert(with_host_clauses(all, n + 2, in_quote) == seq!['o'] + (seq!['s'] + (seq!['t']
                + (seq![':'] + tail))));
            assert(with_host_clauses(all, n + 1, in_quote) == seq!['h'] + (seq!['o'] + (seq!['s']
                + (seq!['t'] + (seq![':'] + tail)))));
            assert(with_host_clauses(all, n, in_quote) =~= rest);
        } else {
            let next = if q[i] == '"' {
                !in_quote
            } else {
                in_quote
            };
            let tail = with_host_clauses(q, i + 1, next);
            let all = before + rest;
            lemma_rewritten(q, i + 1, next, before.push(q[i]));
            assert(all =~= before.push(q[i]) + tail);
            assert(all[n] == q[i]);
            if stands_at(all, "site:"@, n) {
                assert(all.subrange(n, n + "site:"@.len()) =~= rest.subrange(
                    0,
                    "site:"@.len() as int,
                ));
                lemma_no_new_clause(q, i, in_quote);
            }
            if n > 0 {
                assert(all[n - 1] == before.last());
            }
            assert(with_host_clauses(all, n, in_quote) == seq![q[i]] + tail);
        }
    }
}

/// Rewriting a query twice is rewriting it once.
pub proof fn rewriting_twice_is_rewriting_once(q: Seq<char>)
    ensures
        ({
            let once = with_host_clauses(q, 0, false);
            with_host_clauses(once, 0, false) == once
        }),
{
    let once = with_host_clauses(q, 0, false);
    lemma_rewritten(q, 0, false, Seq::empty());
    assert(Seq::<char>::empty() + once =~= once);
}

/// A quote is open at the end of `q`.
pub open spec fn quote_is_open(q: Seq<char>) -> bool
    decreases q.len(),
{
    if q.len() == 0 {
        false
    } else if q.last() == '"' {
        !quote_is_open(q.drop_last())
    } else {
        quote_is_open(q.drop_last())
    }
}

proof fn lemma_same_clause(a: Seq<char>, t: Seq<char>, i: int)
    requires
        0 <= i < a.len(),
        t.len() > 0,
        t[0] == ' ',
    ensures
        site_clause_at(a + t, i) == site_clause_at(a, i),
{
    reveal_strlit("site:");
    let all = a + t;
    if i + 5 <= a.len() {
        assert(all.subrange(i, i + 5) =~= a.subrange(i, i + 5));
    } else if stands_at(all, "site:"@, i) {
        let k = a.len() - i;
        assert(all.subrange(i, i + 5)[k] == ' ');
        assert("site:"@[k] != ' ');
    }
}

proof fn lemma_start_is_rewritten_alone(a: Seq<char>, t: Seq<char>, i: int)
    requires
        0 <= i <= a.len(),
        t.len() > 0,
        t[0] == ' ',
    ensures
        with_host_clauses(a + t, i, quote_is_open(a.take(i))) == with_host_clauses(
            a,
            i,
            quote_is_open(a.take(i)),
        ) + with_host_clauses(a + t, a.len() as int, quote_is_open(a)),
    decreases a.len() - i,
{
    let all = a + t;
    let end = with_host_clauses(all, a.len() as int, quote_is_open(a));
    let open = quote_is_open(a.take(i));
    if i == a.len() {
        assert(a.take(i) =~= a);
        assert(Seq::<char>::empty() + end =~= end);
    } else {
        lemma_same_clause(a, t, i);
        assert(all[i] == a[i]);
        assert(a.take(i + 1).drop_last() =~= a.take(i));
        assert(a.take(i + 1).last() == a[i]);
        if a[i] != '"' && !open && site_clause_at(a, i) {
            reveal_strlit("site:");
            let w = a.subrange(i, i + 5);
            assert(w[0] == a[i] && w[1] == a[i + 1] && w[2] == a[i + 2] && w[3] == a[i + 3] && w[4]
                == a[i + 4]);
            assert(a.take(i + 2).drop_last() =~= a.take(i + 1));
            assert(a.take(i + 3).drop_last() =~= a.take(i + 2));
            assert(a.take(i + 4).drop_last() =~= a.take(i + 3));
            assert(a.take(i + 5).drop_last() =~= a.take(i + 4));
            assert(quote_is_open(a.take(i + 2)) == open);
            assert(quote_is_open(a.take(i + 3)) == open);
            assert(quote_is_open(a.take(i + 4)) == open);
            assert(quote_is_open(a.take(i + 5)) == open);
            lemma_start_is_rewritten_alone(a, t, i + 5);
            assert("+host:"@ + (with_host_clauses(a, i + 5, open) + end) =~= ("+host:"@
                + with_host_clauses(a, i + 5, open)) + end);
        } else {
            let next = quote_is_open(a.take(i + 1));
            lemma_start_is_rewritten_alone(a, t, i + 1);
            assert(seq![a[i]] + (with_host_clauses(a, i + 1, next) + end) =~= (seq![a[i]]
                + with_host_clauses(a, i + 1, next)) + end);
        }
    }
}

proof fn lemma_end_is_rewritten_alone(p: Seq<char>, b: Seq<char>, j: int, in_quote: bool)
    requires
        0 <= j <= b.len(),
        p.len() > 0,
        is_white_space(p.last()),
    ensures
        with_host_clauses(p + b, p.len() + j, in_quote) == with_host_clauses(b, j, in_quote),
    decreases b.len() - j,
{
    if j < b.len() {
        reveal_strlit("site:");
        let all = p + b;
        let n = p.len() as int;
        assert(all[n + j] == b[j]);
        assert(all[n + j - 1] == if j == 0 {
            p.last()
        } else {
            b[j - 1]
        });
        if j + 5 <= b.len() {
            assert(all.subrange(n + j, n + j + 5) =~= b.subrange(j, j + 5));
        }
        assert(site_clause_at(all, n + j) == site_clause_at(b, j));
        if b[j] == '"' {
            lemma_end_is_rewritten_alone(p, b, j + 1, !in_quote);
        } else if !in_quote && site_clause_at(b, j) {
            lemma_end_is_rewritten_alone(p, b, j + 5, in_quote);
        } else {
            lemma_end_is_rewritten_alone(p, b, j + 1, in_quote);
        }
    }
}

/// Two queries with a space between them are rewritten each for itself, where
/// the first leaves no quote open.
pub proof fn queries_are_rewritten_apart(a: Seq<char>, b: Seq<char>)
    requires
        !quote_is_open(a),
    ensures
        with_host_clauses(a + seq![' '] + b, 0, false) == with_host_clauses(a, 0, false) + seq![' ']
            + with_host_clauses(b, 0, false),
{
    let p = a + seq![' '];
    let t = seq![' '] + b;
    let all = p + b;
    assert(a + t =~= all);
    assert(a.take(0) =~= Seq::<char>::empty());
    lemma_start_is_rewritten_alone(a, t, 0);
    assert(p.last() == ' ');
    lemma_end_is_rewritten_alone(p, b, 0, false);
    let n = a.len() as int;
    assert(all[n] == ' ');
    assert(!site_clause_at(all, n)) by {
        reveal_strlit("site:");
        if stands_at(all, "site:"@, n) {
            assert(all.subrange(n, n + 5)[0] == ' ');
        }
    }
    assert(with_host_clauses(all, n, false) == seq![' '] + with_host_clauses(b, 0, false));
    assert(with_host_clauses(a, 0, false) + (seq![' '] + with_host_clauses(b, 0, false))
        =~= with_host_clauses(a, 0, false) + seq![' '] + with_host_clauses(b, 0, false));
}

/// Every character of a query stands where it stood, but for the clauses that
/// are rewritten: a quote opens or closes, and anything else is copied.
pub proof fn other_characters_are_copied(q: Seq<char>, i: int, in_quote: bool)
    requires
        0 <= i < q.len(),
    ensures
        q[i] == '"' ==> with_host_clauses(q, i, in_quote) == seq!['"'] + with_host_clauses(
            q,
            i + 1,
            !in_quote,
        ),
        q[i] != '"' && (in_quote || q[i] != 's') ==> with_host_clauses(q, i, in_quote)
            == seq![q[i]] + with_host_clauses(q, i + 1, in_quote),
        with_host_clauses(q, q.len() as int, in_quote).len() == 0,
{
    reveal_strlit("site:");
    if stands_at(q, "site:"@, i) {
        assert(q.subrange(i, i + 5)[0] == q[i]);
    }
}

/// A clause may start at the beginning of a query and behind white space, an
/// opening bracket or a sign, and nowhere else.
pub proof fn clauses_start_at_words(q: Seq<char>, i: int)
    requires
        0 < i < q.len(),
    ensures
        clause_may_start(q, 0),
        clause_may_start(q, i) <==> is_white_space(q[i - 1]) || q[i - 1] == '(' || q[i - 1] == '-'
            || q[i - 1] == '+',
        site_clause_at(q, i) ==> q[i] == 's' && i + 5 <= q.len() && q[i + 4] == ':',
{
    reveal_strlit("site:");
    if stands_at(q, "site:"@, i) {
        assert(q.subrange(i, i + 5)[0] == q[i]);
        assert(q.subrange(i, i + 5)[4] == q[i + 4]);
    }
}

/// An excerpt has 220 characters at the most.
pub proof fn excerpts_are_short()
    ensures
        MAX_EXCERPT_CHARS == 220,
{
}

} // verus!
