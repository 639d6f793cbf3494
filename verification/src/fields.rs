//! The tab-delimited field sequence that every by-square document is
//! serialized to: joining fields, splitting a sequence, and keeping user text
//! free of the separator.

use vstd::prelude::*;
use crate::decimal::{extend_chars, index_of, is_white, is_whitespace, lemma_index_of_bound, lemma_index_of_concat};
use crate::text::{chars_of, string_from_chars};

verus! {

/// A character of user text as it is transported: tabs become spaces.
pub open spec fn untab(c: char) -> char {
    if c == '\t' {
        ' '
    } else {
        c
    }
}

/// User text with every tab replaced by a space (`str::replace('\t', " ")`).
pub open spec fn sanitized_text(s: Seq<char>) -> Seq<char> {
    s.map_values(|c: char| untab(c))
}

/// Whether `s` contains no tab.
pub open spec fn tab_free(s: Seq<char>) -> bool {
    forall|k: int| 0 <= k < s.len() ==> s[k] != '\t'
}

/// The views of a sequence of strings.
pub open spec fn texts(v: Seq<String>) -> Seq<Seq<char>> {
    v.map_values(|s: String| s@)
}

/// Fields written one after the other with a tab between neighbours.
pub open spec fn joined(fields: Seq<Seq<char>>) -> Seq<char>
    decreases fields.len(),
{
    if fields.len() == 0 {
        seq![]
    } else if fields.len() == 1 {
        fields[0]
    } else {
        fields[0] + seq!['\t'] + joined(fields.drop_first())
    }
}

/// The fields of a sequence: the text between tabs (`str::split('\t')`).
/// There is always at least one field.
pub open spec fn split_tabs(s: Seq<char>) -> Seq<Seq<char>>
    decreases s.len(),
{
    let i = index_of(s, '\t');
    if i >= s.len() {
        seq![s]
    } else {
        proof {
            lemma_index_of_bound(s, '\t');
        }
        seq![s.take(i)] + split_tabs(s.skip(i + 1))
    }
}

/// Appending a field to joined fields.
pub proof fn lemma_joined_push(fields: Seq<Seq<char>>, f: Seq<char>)
    requires
        fields.len() >= 1,
    ensures
        joined(fields.push(f)) == joined(fields) + seq!['\t'] + f,
    decreases fields.len(),
{
    assert(fields.push(f)[0] == fields[0]);
    if fields.len() == 1 {
        assert(fields.push(f).drop_first() =~= seq![f]);
        assert(joined(seq![f]) == f);
        assert(joined(fields.push(f)) =~= joined(fields) + seq!['\t'] + f);
    } else {
        lemma_joined_push(fields.drop_first(), f);
        assert(fields.push(f).drop_first() =~= fields.drop_first().push(f));
        assert(joined(fields.push(f)) =~= joined(fields) + seq!['\t'] + f);
    }
}

/// Sanitized text holds no tab.
pub proof fn lemma_sanitized_tab_free(s: Seq<char>)
    ensures
        tab_free(sanitized_text(s)),
        sanitized_text(s).len() == s.len(),
{
}

/// Splitting joined fields gives the fields back when none holds a tab.
/// Text without tabs is its own sanitized form.
pub proof fn lemma_sanitized_identity(s: Seq<char>)
    requires
        tab_free(s),
    ensures
        sanitized_text(s) == s,
{
    assert(sanitized_text(s) =~= s);
}

pub proof fn lemma_split_joined(fields: Seq<Seq<char>>)
    requires
        fields.len() >= 1,
        forall|i: int| 0 <= i < fields.len() ==> tab_free(#[trigger] fields[i]),
    ensures
        split_tabs(joined(fields)) == fields,
    decreases fields.len(),
{
    let f = fields[0];
    assert(tab_free(f));
    if fields.len() == 1 {
        lemma_index_of_bound(f, '\t');
        if index_of(f, '\t') < f.len() {
            assert(f[index_of(f, '\t')] == '\t');
        }
        assert(split_tabs(f) =~= seq![f]);
        assert(fields =~= seq![f]);
    } else {
        let rest = fields.drop_first();
        let s = joined(fields);
        assert(s == f + (seq!['\t'] + joined(rest)));
        lemma_index_of_concat(f, seq!['\t'] + joined(rest), '\t');
        assert(index_of(seq!['\t'] + joined(rest), '\t') == 0);
        assert(index_of(s, '\t') == f.len());
        assert(s.take(f.len() as int) =~= f);
        assert(s.skip(f.len() as int + 1) =~= joined(rest));
        assert forall|i: int| 0 <= i < rest.len() implies tab_free(#[trigger] rest[i]) by {
            assert(rest[i] == fields[i + 1]);
        }
        lemma_split_joined(rest);
        assert(split_tabs(s) =~= seq![f] + rest);
        assert(fields =~= seq![f] + rest);
    }
}

/// `value` with every tab replaced by a space.
pub fn sanitized(value: &str) -> (r: String)
    ensures
        r@ == sanitized_text(value@),
{
    let chars = chars_of(value);
    let mut out: Vec<char> = Vec::new();
    let mut i: usize = 0;
    while i < chars.len()
        invariant
            i <= chars@.len(),
            chars@ == value@,
            out@ == sanitized_text(chars@.take(i as int)),
        decreases chars.len() - i,
    {
        let c = chars[i];
        out.push(if c == '\t' { ' ' } else { c });
        assert(chars@.take(i + 1) =~= chars@.take(i as int).push(c));
        assert(out@ =~= sanitized_text(chars@.take(i + 1)));
        i = i + 1;
    }
    assert(chars@.take(chars@.len() as int) =~= chars@);
    string_from_chars(out.as_slice())
}

/// The number of characters (Unicode scalar values) of `value`.
pub fn char_count(value: &str) -> (r: usize)
    ensures
        r == value@.len(),
{
    chars_of(value).len()
}

/// The fields joined with a tab between neighbours (`[String]::join("\t")`).
pub fn join_fields(fields: &Vec<String>) -> (r: String)
    ensures
        r@ == joined(texts(fields@)),
{
    let mut out: Vec<char> = Vec::new();
    let n = fields.len();
    if n == 0 {
        assert(texts(fields@) =~= Seq::<Seq<char>>::empty());
        return string_from_chars(out.as_slice());
    }
    let first = chars_of(fields[0].as_str());
    extend_chars(&mut out, &first);
    assert(texts(fields@).take(1) =~= seq![fields@[0]@]);
    let mut i: usize = 1;
    while i < n
        invariant
            1 <= i <= n == fields@.len(),
            out@ == joined(texts(fields@).take(i as int)),
        decreases n - i,
    {
        out.push('\t');
        let next = chars_of(fields[i].as_str());
        extend_chars(&mut out, &next);
        proof {
            lemma_joined_push(texts(fields@).take(i as int), fields@[i as int]@);
            assert(texts(fields@).take(i + 1) =~= texts(fields@).take(i as int).push(fields@[i as int]@));
        }
        i = i + 1;
    }
    assert(texts(fields@).take(n as int) =~= texts(fields@));
    string_from_chars(out.as_slice())
}

/// The tab-separated fields of `sequence` (`str::split('\t')`).
pub fn split_fields(sequence: &str) -> (r: Vec<String>)
    ensures
        texts(r@) == split_tabs(sequence@),
        r@.len() >= 1,
{
    let s = chars_of(sequence);
    let ghost whole = s@;
    let mut out: Vec<String> = Vec::new();
    let mut current: Vec<char> = Vec::new();
    let mut start: usize = 0;
    let mut i: usize = 0;
    let n = s.len();
    assert(whole.skip(0) =~= whole);
    assert(texts(out@) + split_tabs(whole) =~= split_tabs(whole));
    while i < n
        invariant
            start <= i <= n == whole.len(),
            s@ == whole,
            current@ == whole.subrange(start as int, i as int),
            tab_free(current@),
            split_tabs(whole) == texts(out@) + split_tabs(whole.skip(start as int)),
        decreases n - i,
    {
        let c = s[i];
        if c == '\t' {
            proof {
                let rest = whole.skip(start as int);
                assert(rest =~= current@ + whole.skip(i as int));
                assert(whole.skip(i as int) =~= seq!['\t'] + whole.skip(i + 1));
                lemma_index_of_concat(current@, whole.skip(i as int), '\t');
                assert(index_of(whole.skip(i as int), '\t') == 0);
                assert(rest.take(i - start) =~= current@);
                assert(rest.skip(i - start + 1) =~= whole.skip(i + 1));
                assert(split_tabs(rest) =~= seq![current@] + split_tabs(whole.skip(i + 1)));
            }
            let field = string_from_chars(current.as_slice());
            let ghost prev = out@;
            out.push(field);
            proof {
                assert(texts(out@) =~= texts(prev).push(current@));
                assert(texts(prev) + (seq![current@] + split_tabs(whole.skip(i + 1))) =~= texts(out@)
                    + split_tabs(whole.skip(i + 1)));
            }
            current = Vec::new();
            start = i + 1;
            assert(current@ =~= whole.subrange(start as int, (i + 1) as int));
        } else {
            current.push(c);
            assert(current@ =~= whole.subrange(start as int, (i + 1) as int));
        }
        i = i + 1;
    }
    proof {
        let rest = whole.skip(start as int);
        assert(rest =~= current@);
        lemma_index_of_bound(rest, '\t');
        if index_of(rest, '\t') < rest.len() {
            assert(rest[index_of(rest, '\t')] == '\t');
        }
        assert(split_tabs(rest) =~= seq![current@]);
    }
    let last = string_from_chars(current.as_slice());
    let ghost prev = out@;
    out.push(last);
    assert(texts(out@) =~= texts(prev).push(current@));
    assert(texts(out@) =~= split_tabs(whole));
    out
}

/// Scanning text left to right for white-space separated words: the words
/// completed so far and the word being read.
pub open spec fn scan_words(s: Seq<char>) -> (Seq<Seq<char>>, Seq<char>)
    decreases s.len(),
{
    if s.len() == 0 {
        (seq![], seq![])
    } else {
        let (done, current) = scan_words(s.drop_last());
        let c = s.last();
        if is_white(c) {
            if current.len() > 0 {
                (done.push(current), seq![])
            } else {
                (done, seq![])
            }
        } else {
            (done, current.push(c))
        }
    }
}

/// The white-space separated words of `s` (`str::split_whitespace`).
pub open spec fn words(s: Seq<char>) -> Seq<Seq<char>> {
    let (done, current) = scan_words(s);
    if current.len() > 0 {
        done.push(current)
    } else {
        done
    }
}

/// The white-space separated words of `value`.
pub fn split_words(value: &str) -> (r: Vec<String>)
    ensures
        texts(r@) == words(value@),
{
    let chars = chars_of(value);
    let mut done: Vec<String> = Vec::new();
    let mut current: Vec<char> = Vec::new();
    let mut i: usize = 0;
    assert(chars@.take(0) =~= Seq::<char>::empty());
    while i < chars.len()
        invariant
            i <= chars@.len(),
            chars@ == value@,
            scan_words(chars@.take(i as int)) == (texts(done@), current@),
        decreases chars.len() - i,
    {
        let c = chars[i];
        assert(chars@.take(i + 1).drop_last() =~= chars@.take(i as int));
        if is_whitespace(c) {
            if current.len() > 0 {
                let word = string_from_chars(current.as_slice());
                let ghost before = done@;
                done.push(word);
                assert(texts(done@) =~= texts(before).push(current@));
                current = Vec::new();
            } else {
                current = Vec::new();
            }
            assert(current@ =~= Seq::<char>::empty());
        } else {
            current.push(c);
        }
        i = i + 1;
    }
    assert(chars@.take(chars@.len() as int) =~= chars@);
    if current.len() > 0 {
        let word = string_from_chars(current.as_slice());
        let ghost before = done@;
        done.push(word);
        assert(texts(done@) =~= texts(before).push(current@));
    }
    done
}

} // verus!
