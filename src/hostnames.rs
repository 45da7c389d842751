//! Turning raw line-delimited text into a clean, ordered set of hostnames.
use vstd::prelude::*;

verus! {

/// The character sequences held by a vector of strings.
pub open spec fn seq_views(v: Seq<String>) -> Seq<Seq<char>> {
    v.map_values(|s: String| s@)
}

/// The text cut at every `'\n'`: one more piece than there are newlines.
pub open spec fn split_newlines(text: Seq<char>) -> Seq<Seq<char>>
    decreases text.len(),
{
    if text.len() == 0 {
        seq![Seq::empty()]
    } else if text.last() == '\n' {
        split_newlines(text.drop_last()).push(Seq::empty())
    } else {
        let p = split_newlines(text.drop_last());
        p.update(p.len() - 1, p.last().push(text.last()))
    }
}

/// A line without the `'\r'` of a `"\r\n"` ending.
pub open spec fn strip_cr(line: Seq<char>) -> Seq<char> {
    if line.len() > 0 && line.last() == '\r' {
        line.drop_last()
    } else {
        line
    }
}

/// The lines of a text: cut at `"\n"` or `"\r\n"`, endings left out, and no
/// empty last line after a final line ending. A `'\r'` not followed by a
/// `'\n'` stays in its line.
pub open spec fn lines_of(text: Seq<char>) -> Seq<Seq<char>> {
    let p = split_newlines(text);
    let ended = if text.len() > 0 && text.last() == '\n' {
        p.drop_last()
    } else if text.len() == 0 {
        Seq::empty()
    } else {
        p
    };
    Seq::new(
        ended.len(),
        |i: int|
            if i < p.len() - 1 {
                strip_cr(ended[i])
            } else {
                ended[i]
            },
    )
}

/// A character of the Unicode `White_Space` property.
pub open spec fn is_white_space(c: char) -> bool {
    let u = c as u32;
    (0x9 <= u && u <= 0xd) || u == 0x20 || u == 0x85 || u == 0xa0 || u == 0x1680 || (0x2000 <= u
        && u <= 0x200a) || u == 0x2028 || u == 0x2029 || u == 0x202f || u == 0x205f || u == 0x3000
}

/// A line without its leading white space.
pub open spec fn trim_start_of(line: Seq<char>) -> Seq<char>
    decreases line.len(),
{
    if line.len() > 0 && is_white_space(line[0]) {
        trim_start_of(line.skip(1))
    } else {
        line
    }
}

/// A line without its trailing white space.
pub open spec fn trim_end_of(line: Seq<char>) -> Seq<char>
    decreases line.len(),
{
    if line.len() > 0 && is_white_space(line.last()) {
        trim_end_of(line.drop_last())
    } else {
        line
    }
}

/// A line without its leading and trailing white space.
pub open spec fn trim_of(line: Seq<char>) -> Seq<char> {
    trim_end_of(trim_start_of(line))
}

/// A line that neither starts nor ends with white space.
pub open spec fn is_trimmed(line: Seq<char>) -> bool {
    line.len() == 0 || (!is_white_space(line[0]) && !is_white_space(line.last()))
}

proof fn lemma_trim_start(line: Seq<char>)
    ensures
        trim_start_of(line).len() == 0 || !is_white_space(trim_start_of(line)[0]),
    decreases line.len(),
{
    if line.len() > 0 && is_white_space(line[0]) {
        lemma_trim_start(line.skip(1));
    }
}

proof fn lemma_trim_end(line: Seq<char>)
    ensures
        trim_end_of(line).len() <= line.len(),
        trim_end_of(line) =~= line.take(trim_end_of(line).len() as int),
        trim_end_of(line).len() == 0 || !is_white_space(trim_end_of(line).last()),
    decreases line.len(),
{
    if line.len() > 0 && is_white_space(line.last()) {
        lemma_trim_end(line.drop_last());
    }
}

/// A trimmed line is trimmed, and trimming it again changes nothing.
pub proof fn lemma_trim_of_trimmed(line: Seq<char>)
    ensures
        is_trimmed(trim_of(line)),
        trim_of(trim_of(line)) == trim_of(line),
{
    let a = trim_start_of(line);
    let r = trim_end_of(a);
    lemma_trim_start(line);
    lemma_trim_end(a);
    if r.len() > 0 {
        assert(r[0] == a[0]);
        assert(trim_start_of(r) == r);
        assert(trim_end_of(r) == r);
    } else {
        assert(trim_start_of(r) == r);
        assert(trim_end_of(r) == r);
    }
}

/// The non-empty entries of `s`, each kept at its first occurrence only.
pub open spec fn unique_nonempty(s: Seq<Seq<char>>) -> Seq<Seq<char>>
    decreases s.len(),
{
    if s.len() == 0 {
        Seq::empty()
    } else {
        let p = unique_nonempty(s.drop_last());
        let x = s.last();
        if x.len() == 0 || p.contains(x) {
            p
        } else {
            p.push(x)
        }
    }
}

/// Every line trimmed.
pub open spec fn trimmed_lines(lines: Seq<Seq<char>>) -> Seq<Seq<char>> {
    lines.map_values(|l: Seq<char>| trim_of(l))
}

/// The hostname set that a list of raw lines stands for.
pub open spec fn normalized_hostnames(lines: Seq<Seq<char>>) -> Seq<Seq<char>> {
    unique_nonempty(trimmed_lines(lines))
}

/// `a` occurs in `s` before any occurrence of `b`.
pub open spec fn seen_before(s: Seq<Seq<char>>, a: Seq<char>, b: Seq<char>) -> bool {
    exists|k: int|
        0 <= k < s.len() && s[k] == a && (forall|m: int| 0 <= m <= k ==> s[m] != b)
}

/// Deduplication keeps exactly the non-empty entries, each once, and in the
/// order of their first occurrence.
pub proof fn lemma_unique_nonempty(s: Seq<Seq<char>>)
    ensures
        unique_nonempty(s).no_duplicates(),
        forall|i: int| 0 <= i < unique_nonempty(s).len() ==> unique_nonempty(s)[i].len() > 0,
        forall|x: Seq<char>| unique_nonempty(s).contains(x) <==> (s.contains(x) && x.len() > 0),
        forall|i: int, j: int|
            0 <= i < j < unique_nonempty(s).len() ==> seen_before(
                s,
                unique_nonempty(s)[i],
                unique_nonempty(s)[j],
            ),
    decreases s.len(),
{
    if s.len() > 0 {
        let t = s.drop_last();
        let x = s.last();
        let p = unique_nonempty(t);
        lemma_unique_nonempty(t);
        assert forall|y: Seq<char>| t.contains(y) implies s.contains(y) by {
            let k = choose|k: int| 0 <= k < t.len() && t[k] == y;
            assert(s[k] == y);
        }
        assert forall|y: Seq<char>| s.contains(y) implies (t.contains(y) || y == x) by {
            let k = choose|k: int| 0 <= k < s.len() && s[k] == y;
            if k < t.len() {
                assert(t[k] == y);
            }
        }
        assert(s[s.len() - 1] == x);
        assert forall|a: Seq<char>, b: Seq<char>| seen_before(t, a, b) implies seen_before(
            s,
            a,
            b,
        ) by {
            let k = choose|k: int|
                0 <= k < t.len() && t[k] == a && (forall|m: int| 0 <= m <= k ==> t[m] != b);
            assert(s[k] == a);
            assert forall|m: int| 0 <= m <= k implies s[m] != b by {
                assert(s[m] == t[m]);
            }
        }
        if !(x.len() == 0 || p.contains(x)) {
            let r = p.push(x);
            assert(!t.contains(x));
            assert forall|i: int, j: int| 0 <= i < j < r.len() implies seen_before(
                s,
                r[i],
                r[j],
            ) by {
                if j == r.len() - 1 {
                    assert(r[i] == p[i]);
                    assert(p.contains(r[i]));
                    assert(t.contains(r[i]));
                    let k = choose|k: int| 0 <= k < t.len() && t[k] == r[i];
                    assert(s[k] == r[i]);
                    assert forall|m: int| 0 <= m <= k implies s[m] != x by {
                        assert(s[m] == t[m]);
                    }
                } else {
                    assert(r[i] == p[i] && r[j] == p[j]);
                }
            }
            assert forall|y: Seq<char>| r.contains(y) <==> (s.contains(y) && y.len() > 0) by {
                if r.contains(y) && y != x {
                    let k = choose|k: int| 0 <= k < r.len() && r[k] == y;
                    assert(p[k] == y);
                }
                if s.contains(y) && y.len() > 0 {
                    if y == x {
                        assert(r[r.len() - 1] == y);
                    } else {
                        assert(p.contains(y));
                        let k = choose|k: int| 0 <= k < p.len() && p[k] == y;
                        assert(r[k] == y);
                    }
                }
            }
            assert forall|i: int| 0 <= i < r.len() implies r[i].len() > 0 by {
                if i < p.len() {
                    assert(r[i] == p[i]);
                }
            }
            assert(r.no_duplicates()) by {
                assert forall|i: int, j: int| 0 <= i < r.len() && 0 <= j < r.len() && i != j
                    implies r[i] != r[j] by {
                    if i < p.len() && j < p.len() {
                        assert(r[i] == p[i] && r[j] == p[j]);
                    } else if i < p.len() {
                        assert(p.contains(r[i]));
                    } else {
                        assert(p.contains(r[j]));
                    }
                }
            }
        } else {
            assert forall|y: Seq<char>| p.contains(y) <==> (s.contains(y) && y.len() > 0) by {
                if s.contains(y) && y.len() > 0 && y == x {
                    assert(p.contains(y));
                }
            }
        }
    }
}

/// Every loaded hostname is non-empty, neither starts nor ends with white
/// space, and is left unchanged by trimming.
pub proof fn lemma_hostnames_trimmed(lines: Seq<Seq<char>>)
    ensures
        forall|i: int|
            0 <= i < normalized_hostnames(lines).len() ==> {
                let h = #[trigger] normalized_hostnames(lines)[i];
                h.len() > 0 && is_trimmed(h) && trim_of(h) == h
            },
{
    let t = trimmed_lines(lines);
    let r = normalized_hostnames(lines);
    lemma_unique_nonempty(t);
    assert forall|i: int| 0 <= i < r.len() implies {
        let h = #[trigger] r[i];
        h.len() > 0 && is_trimmed(h) && trim_of(h) == h
    } by {
        assert(r.contains(r[i]));
        assert(t.contains(r[i]));
        let k = choose|k: int| 0 <= k < t.len() && t[k] == r[i];
        lemma_trim_of_trimmed(lines[k]);
    }
}

/// Relies on `str::lines`: the text cut at `"\n"` and `"\r\n"` endings.
#[verifier::external_body]
fn split_lines(text: &str) -> (r: Vec<String>)
    ensures
        seq_views(r@) == lines_of(text@),
{
    text.lines().map(|l| l.to_string()).collect()
}

/// Relies on `str::trim`: drops leading and trailing `White_Space` characters.
#[verifier::external_body]
fn trim_line(line: &str) -> (r: String)
    ensures
        r@ == trim_of(line@),
{
    line.trim().to_string()
}

/// Whether `v` holds a string equal to `x`.
pub fn contains_name(v: &Vec<String>, x: &String) -> (r: bool)
    ensures
        r == seq_views(v@).contains(x@),
{
    let mut j: usize = 0;
    while j < v.len()
        invariant
            j <= v.len(),
            forall|k: int| 0 <= k < j ==> v@[k]@ != x@,
        decreases v.len() - j,
    {
        if v[j] == *x {
            assert(seq_views(v@)[j as int] == x@);
            return true;
        }
        j = j + 1;
    }
    assert(!seq_views(v@).contains(x@)) by {
        if seq_views(v@).contains(x@) {
            let k = choose|k: int| 0 <= k < seq_views(v@).len() && seq_views(v@)[k] == x@;
            assert(v@[k]@ == x@);
        }
    }
    false
}

/// Drops empty entries and repeated entries from already trimmed lines,
/// keeping the order in which entries were first seen.
pub fn dedup_hostnames(trimmed: &Vec<String>) -> (r: Vec<String>)
    ensures
        seq_views(r@) == unique_nonempty(seq_views(trimmed@)),
{
    let mut out: Vec<String> = Vec::new();
    let mut i: usize = 0;
    while i < trimmed.len()
        invariant
            i <= trimmed.len(),
            seq_views(out@) == unique_nonempty(seq_views(trimmed@).take(i as int)),
        decreases trimmed.len() - i,
    {
        let ghost s = seq_views(trimmed@).take(i as int + 1);
        assert(s.drop_last() =~= seq_views(trimmed@).take(i as int));
        assert(s.last() == trimmed@[i as int]@);
        let line = &trimmed[i];
        if !line.as_str().is_empty() && !contains_name(&out, line) {
            out.push(line.clone());
            assert(seq_views(out@) =~= unique_nonempty(s));
        }
        i = i + 1;
    }
    assert(seq_views(trimmed@).take(trimmed.len() as int) =~= seq_views(trimmed@));
    out
}

/// Trims every raw line, then drops empty and repeated entries, keeping
/// first-seen order.
pub fn normalize_hostnames(lines: &Vec<String>) -> (r: Vec<String>)
    ensures
        seq_views(r@) == normalized_hostnames(seq_views(lines@)),
{
    let mut trimmed: Vec<String> = Vec::new();
    let mut i: usize = 0;
    while i < lines.len()
        invariant
            i <= lines.len(),
            trimmed.len() == i,
            forall|k: int| 0 <= k < i ==> trimmed@[k]@ == trim_of(lines@[k]@),
        decreases lines.len() - i,
    {
        let t = trim_line(lines[i].as_str());
        trimmed.push(t);
        i = i + 1;
    }
    assert(seq_views(trimmed@) =~= trimmed_lines(seq_views(lines@)));
    dedup_hostnames(&trimmed)
}

/// The hostname set of a line-delimited text: each line trimmed, blank
/// lines dropped, repeats dropped, first-seen order kept.
pub fn load_hostnames(text: &str) -> (r: Vec<String>)
    ensures
        seq_views(r@) == normalized_hostnames(lines_of(text@)),
{
    let lines = split_lines(text);
    normalize_hostnames(&lines)
}

} // verus!
