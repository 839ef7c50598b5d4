//! Query strings for requests to the issue tracker.

use vstd::prelude::*;

verus! {

/// One `key=value` pair of a query.
pub type QueryParam<'a> = (&'a str, &'a str);

/// The pairs of a query, in order.
pub type QueryParams<'a> = Vec<QueryParam<'a>>;

/// `key=value&` for each pair, in order.
pub open spec fn query_string(query: Seq<(Seq<char>, Seq<char>)>) -> Seq<char>
    decreases query.len(),
{
    if query.len() == 0 {
        Seq::empty()
    } else {
        query_string(query.drop_last()) + query.last().0 + "="@ + query.last().1 + "&"@
    }
}

/// The pairs of a query as character sequences.
pub open spec fn query_view(query: Seq<QueryParam>) -> Seq<(Seq<char>, Seq<char>)> {
    query.map_values(|p: QueryParam| (p.0@, p.1@))
}

/// Builds the query string `k1=v1&k2=v2&`: every pair ends with `&`.
pub fn build_string_query(query: QueryParams) -> (res: String)
    ensures
        res@ == query_string(query_view(query@)),
{
    let mut res = String::new();
    let n = query.len();
    let mut i: usize = 0;
    while i < n
        invariant
            n == query@.len(),
            0 <= i <= n,
            res@ == query_string(query_view(query@).take(i as int)),
        decreases n - i,
    {
        let (key, value) = query[i];
        proof {
            let q = query_view(query@).take(i + 1);
            assert(q.drop_last() =~= query_view(query@).take(i as int));
            assert(q.last() == (key@, value@));
        }
        res.append(key);
        res.append("=");
        res.append(value);
        res.append("&");
        i = i + 1;
    }
    proof {
        assert(query_view(query@).take(n as int) =~= query_view(query@));
    }
    res
}

/// The query string of two queries one after the other is the two query strings
/// one after the other.
pub proof fn lemma_query_string_concat(
    a: Seq<(Seq<char>, Seq<char>)>,
    b: Seq<(Seq<char>, Seq<char>)>,
)
    ensures
        query_string(a + b) == query_string(a) + query_string(b),
    decreases b.len(),
{
    if b.len() == 0 {
        assert(a + b =~= a);
    } else {
        lemma_query_string_concat(a, b.drop_last());
        assert((a + b).drop_last() =~= a + b.drop_last());
        assert((a + b).last() == b.last());
        let l = b.last();
        assert(query_string(a) + query_string(b.drop_last()) + l.0 + "="@ + l.1 + "&"@
            =~= query_string(a) + (query_string(b.drop_last()) + l.0 + "="@ + l.1 + "&"@));
    }
}

} // verus!
