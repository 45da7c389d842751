//! The inventory filter expression for a hostname set:
//! `hostname:['h1','h2',...]`.
use vstd::prelude::*;
use crate::hostnames::seq_views;

verus! {

/// The text that opens every filter expression.
pub open spec fn filter_head() -> Seq<char> {
    seq!['h', 'o', 's', 't', 'n', 'a', 'm', 'e', ':', '[']
}

/// A hostname between single quotes.
pub open spec fn quoted(h: Seq<char>) -> Seq<char> {
    seq!['\''] + h + seq!['\'']
}

/// The quoted hostnames joined by commas.
pub open spec fn joined(hs: Seq<Seq<char>>) -> Seq<char>
    decreases hs.len(),
{
    if hs.len() == 0 {
        Seq::empty()
    } else if hs.len() == 1 {
        quoted(hs[0])
    } else {
        joined(hs.drop_last()) + seq![','] + quoted(hs.last())
    }
}

/// The filter expression that selects the devices named in `hs`.
pub open spec fn filter_of(hs: Seq<Seq<char>>) -> Seq<char> {
    filter_head() + joined(hs) + seq![']']
}

/// The last quote character in `s` before position `n`, or -1.
pub open spec fn last_quote(s: Seq<char>, n: int) -> int
    decreases n,
{
    if n <= 0 || n > s.len() {
        -1
    } else if s[n - 1] == '\'' {
        n - 1
    } else {
        last_quote(s, n - 1)
    }
}

/// Reads a comma-joined list of quoted values back, from its end.
pub open spec fn parse_items(s: Seq<char>) -> Option<Seq<Seq<char>>>
    decreases s.len(),
{
    if s.len() == 0 {
        Some(Seq::empty())
    } else if s.last() != '\'' {
        None
    } else {
        let j = last_quote(s, s.len() - 1);
        if j < 0 || j >= s.len() {
            None
        } else {
            let item = s.subrange(j + 1, s.len() - 1);
            let before = s.take(j);
            if before.len() == 0 {
                Some(seq![item])
            } else if before.last() != ',' {
                None
            } else {
                match parse_items(before.drop_last()) {
                    Some(rest) => Some(rest.push(item)),
                    None => None,
                }
            }
        }
    }
}

/// Reads a filter expression back into the hostnames it selects.
pub open spec fn parse_filter(e: Seq<char>) -> Option<Seq<Seq<char>>> {
    if e.len() >= filter_head().len() + 1 && e.take(filter_head().len() as int) == filter_head()
        && e.last() == ']' {
        parse_items(e.subrange(filter_head().len() as int, e.len() - 1))
    } else {
        None
    }
}

/// No hostname holds a quote character.
pub open spec fn quote_free(hs: Seq<Seq<char>>) -> bool {
    forall|i: int, k: int| 0 <= i < hs.len() && 0 <= k < hs[i].len() ==> hs[i][k] != '\''
}

proof fn lemma_last_quote(s: Seq<char>, n: int, j: int)
    requires
        0 <= j < n <= s.len(),
        s[j] == '\'',
        forall|k: int| j < k < n ==> s[k] != '\'',
    ensures
        last_quote(s, n) == j,
    decreases n,
{
    if n - 1 > j {
        lemma_last_quote(s, n - 1, j);
    }
}

proof fn lemma_parse_joined(hs: Seq<Seq<char>>)
    requires
        quote_free(hs),
    ensures
        parse_items(joined(hs)) == Some(hs),
    decreases hs.len(),
{
    if hs.len() > 0 {
        let x = hs.last();
        let front: Seq<char> = if hs.len() == 1 {
            Seq::empty()
        } else {
            joined(hs.drop_last()) + seq![',']
        };
        let s = joined(hs);
        assert(s =~= front + quoted(x));
        let j = front.len() as int;
        assert(s[j] == '\'');
        assert forall|k: int| j < k < s.len() - 1 implies s[k] != '\'' by {
            assert(s[k] == x[k - j - 1]);
            assert(hs[hs.len() - 1] == x);
        }
        lemma_last_quote(s, s.len() - 1, j);
        assert(s.subrange(j + 1, s.len() - 1) =~= x);
        assert(s.take(j) =~= front);
        if hs.len() == 1 {
            assert(seq![x] =~= hs);
        } else {
            let t = hs.drop_last();
            assert(quote_free(t)) by {
                assert forall|i: int, k: int| 0 <= i < t.len() && 0 <= k < t[i].len() implies t[i][k]
                    != '\'' by {
                    assert(t[i] == hs[i]);
                }
            }
            lemma_parse_joined(t);
            assert(front.drop_last() =~= joined(t));
            assert(t.push(x) =~= hs);
        }
    }
}

/// Reading a built filter expression back gives the same hostnames, in the
/// same order, each once, as long as no hostname holds a quote character.
pub proof fn lemma_filter_round_trip(hs: Seq<Seq<char>>)
    requires
        quote_free(hs),
    ensures
        parse_filter(filter_of(hs)) == Some(hs),
{
    let e = filter_of(hs);
    lemma_parse_joined(hs);
    assert(e.take(filter_head().len() as int) =~= filter_head());
    assert(e.subrange(filter_head().len() as int, e.len() - 1) =~= joined(hs));
}

/// The filter expression selecting the devices whose hostname is one of
/// `hostnames`; values are put between single quotes as they are.
///
/// Quote characters inside a hostname are not escaped: a hostname that
/// holds one gives an expression that does not read back into the same
/// hostnames (see `lemma_filter_round_trip`).
pub fn build_filter(hostnames: &Vec<String>) -> (r: String)
    ensures
        r@ == filter_of(seq_views(hostnames@)),
{
    let ghost hs = seq_views(hostnames@);
    let mut out = String::from_str("hostname:[");
    proof {
        reveal_strlit("hostname:[");
    }
    assert(out@ =~= filter_head());
    let mut i: usize = 0;
    while i < hostnames.len()
        invariant
            i <= hostnames.len(),
            hs == seq_views(hostnames@),
            out@ == filter_head() + joined(hs.take(i as int)),
        decreases hostnames.len() - i,
    {
        let ghost before = out@;
        proof {
            reveal_strlit(",");
            reveal_strlit("'");
            assert(","@ =~= seq![',']);
            assert("'"@ =~= seq!['\'']);
        }
        if i > 0 {
            out.append(",");
            assert(out@ =~= before + seq![',']);
        }
        let ghost mid = out@;
        out.append("'");
        out.append(hostnames[i].as_str());
        out.append("'");
        assert(out@ =~= mid + quoted(hostnames@[i as int]@));
        proof {
            let t = hs.take(i as int + 1);
            assert(t.drop_last() =~= hs.take(i as int));
            assert(t.last() == hostnames@[i as int]@);
            assert(out@ =~= filter_head() + joined(t));
        }
        i = i + 1;
    }
    proof {
        reveal_strlit("]");
        assert("]"@ =~= seq![']']);
    }
    out.append("]");
    assert(hs.take(hostnames.len() as int) =~= hs);
    assert(out@ =~= filter_of(hs));
    out
}

} // verus!
