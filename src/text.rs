//! Character-level helpers on strings.

use vstd::prelude::*;
use vstd::string::*;

verus! {

/// Whether two strings hold the same characters.
pub fn str_equals(a: &str, b: &str) -> (r: bool)
    ensures
        r == (a@ == b@),
{
    let n = a.unicode_len();
    if n != b.unicode_len() {
        return false;
    }
    let mut i: usize = 0;
    while i < n
        invariant
            n == a@.len(),
            n == b@.len(),
            i <= n,
            a@.subrange(0, i as int) == b@.subrange(0, i as int),
        decreases n - i,
    {
        if a.get_char(i) != b.get_char(i) {
            assert(a@[i as int] != b@[i as int]);
            return false;
        }
        assert(a@.subrange(0, i + 1) == a@.subrange(0, i as int).push(a@[i as int]));
        assert(b@.subrange(0, i + 1) == b@.subrange(0, i as int).push(b@[i as int]));
        i = i + 1;
    }
    assert(a@ == a@.subrange(0, n as int));
    assert(b@ == b@.subrange(0, n as int));
    true
}

/// Whether the text holds no `|`.
pub open spec fn no_pipe(text: Seq<char>) -> bool {
    forall|i: int| 0 <= i < text.len() ==> #[trigger] text[i] != '|'
}

/// The segments of the text between `|` delimiters, in order; text without a delimiter is
/// one segment.
pub open spec fn split_pipe(text: Seq<char>) -> Seq<Seq<char>>
    decreases text.len(),
{
    if text.len() == 0 {
        seq![Seq::empty()]
    } else {
        let before = split_pipe(text.drop_last());
        if text.last() == '|' {
            before.push(Seq::empty())
        } else {
            before.update(before.len() - 1, before.last().push(text.last()))
        }
    }
}

/// The segments joined with `|` between each two.
pub open spec fn join_pipe(segments: Seq<Seq<char>>) -> Seq<char>
    decreases segments.len(),
{
    if segments.len() == 0 {
        Seq::empty()
    } else if segments.len() == 1 {
        segments[0]
    } else {
        join_pipe(segments.drop_last()).push('|') + segments.last()
    }
}

/// The characters of each string.
pub open spec fn string_views(v: Seq<String>) -> Seq<Seq<char>> {
    v.map_values(|s: String| s@)
}

/// Splitting always gives at least one segment.
pub proof fn lemma_split_nonempty(text: Seq<char>)
    ensures
        split_pipe(text).len() >= 1,
    decreases text.len(),
{
    if text.len() > 0 {
        lemma_split_nonempty(text.drop_last());
    }
}

/// Text without a delimiter, appended, extends the last segment.
proof fn lemma_split_extend(text: Seq<char>, tail: Seq<char>)
    requires
        no_pipe(tail),
    ensures
        split_pipe(text + tail) == split_pipe(text).update(
            split_pipe(text).len() - 1,
            split_pipe(text).last() + tail,
        ),
    decreases tail.len(),
{
    lemma_split_nonempty(text);
    if tail.len() == 0 {
        assert(text + tail =~= text);
        assert(split_pipe(text).last() + tail =~= split_pipe(text).last());
        assert(split_pipe(text).update(split_pipe(text).len() - 1, split_pipe(text).last())
            =~= split_pipe(text));
    } else {
        let init = tail.drop_last();
        assert(no_pipe(init)) by {
            assert forall|i: int| 0 <= i < init.len() implies init[i] != '|' by {
                assert(init[i] == tail[i]);
            }
        }
        lemma_split_extend(text, init);
        let whole = text + tail;
        assert(whole.drop_last() =~= text + init);
        assert(whole.last() == tail.last());
        assert(tail.last() != '|') by {
            assert(tail[tail.len() - 1] != '|');
        }
        let s = split_pipe(text);
        assert((s.last() + init).push(tail.last()) =~= s.last() + tail);
        assert(split_pipe(whole) =~= s.update(s.len() - 1, s.last() + tail));
    }
}

/// Splitting joined segments that hold no delimiter gives the segments back.
pub proof fn lemma_split_join(segments: Seq<Seq<char>>)
    requires
        segments.len() >= 1,
        forall|i: int| 0 <= i < segments.len() ==> no_pipe(#[trigger] segments[i]),
    ensures
        split_pipe(join_pipe(segments)) == segments,
    decreases segments.len(),
{
    if segments.len() == 1 {
        let e = Seq::<char>::empty();
        assert(no_pipe(segments[0]));
        lemma_split_extend(e, segments[0]);
        assert(e + segments[0] =~= segments[0]);
        assert(split_pipe(e) == seq![e]);
        assert(seq![e].update(0, e + segments[0]) =~= segments);
    } else {
        let init = segments.drop_last();
        assert forall|i: int| 0 <= i < init.len() implies no_pipe(#[trigger] init[i]) by {
            assert(init[i] == segments[i]);
        }
        lemma_split_join(init);
        let head = join_pipe(init).push('|');
        assert(no_pipe(segments.last())) by {
            assert(segments.last() == segments[segments.len() - 1]);
        }
        lemma_split_extend(head, segments.last());
        assert(head.drop_last() =~= join_pipe(init));
        lemma_split_nonempty(head);
        let s = split_pipe(head);
        assert(s == init.push(Seq::empty()));
        assert(Seq::<char>::empty() + segments.last() =~= segments.last());
        assert(s.update(s.len() - 1, s.last() + segments.last()) =~= segments);
    }
}

/// Splits text at each `|`.
pub fn split_on_pipe(text: &str) -> (r: Vec<String>)
    ensures
        string_views(r@) == split_pipe(text@),
{
    let n = text.unicode_len();
    let mut segments: Vec<String> = Vec::new();
    let mut start: usize = 0;
    let mut i: usize = 0;
    assert(string_views(segments@) =~= Seq::<Seq<char>>::empty());
    assert(text@.subrange(0, 0) =~= Seq::<char>::empty());
    assert(string_views(segments@) =~= Seq::<Seq<char>>::empty());
    assert(text@.subrange(0, 0) =~= Seq::<char>::empty());
    while i < n
        invariant
            n == text@.len(),
            start <= i <= n,
            split_pipe(text@.subrange(0, i as int)) == string_views(segments@).push(
                text@.subrange(start as int, i as int),
            ),
        decreases n - i,
    {
        let c = text.get_char(i);
        let ghost prefix = text@.subrange(0, i + 1);
        assert(prefix.drop_last() =~= text@.subrange(0, i as int));
        assert(prefix.last() == c);
        if c == '|' {
            let piece = text.substring_char(start, i).to_owned();
            let ghost before = segments@;
            segments.push(piece);
            assert(string_views(segments@) =~= string_views(before).push(piece@));
            start = i + 1;
            assert(text@.subrange(start as int, i + 1) =~= Seq::<char>::empty());
        } else {
            assert(text@.subrange(start as int, i + 1) =~= text@.subrange(start as int, i as int).push(
                c,
            ));
        }
        i = i + 1;
    }
    let last = text.substring_char(start, n).to_owned();
    let ghost before = string_views(segments@);
    segments.push(last);
    assert(string_views(segments@) =~= before.push(last@));
    assert(text@.subrange(0, n as int) =~= text@);
    segments
}

/// Joins strings with `|` between each two.
pub fn join_with_pipe(segments: &Vec<String>) -> (r: String)
    ensures
        r@ == join_pipe(string_views(segments@)),
{
    let mut text = String::new();
    let mut i: usize = 0;
    while i < segments.len()
        invariant
            i <= segments@.len(),
            text@ == join_pipe(string_views(segments@.subrange(0, i as int))),
        decreases segments@.len() - i,
    {
        let ghost sub = string_views(segments@.subrange(0, i + 1));
        assert(sub.drop_last() =~= string_views(segments@.subrange(0, i as int)));
        let ghost before = text@;
        assert(sub.last() == segments@[i as int]@);
        if i > 0 {
            text.append("|");
            proof {
                reveal_strlit("|");
            }
            assert("|"@ =~= seq!['|']);
        }
        text.append(segments[i].as_str());
        proof {
            if i == 0 {
                assert(before =~= Seq::<char>::empty());
                assert(text@ =~= sub[0]);
            } else {
                assert(text@ =~= before.push('|') + sub.last());
            }
        }
        i = i + 1;
    }
    assert(segments@.subrange(0, segments@.len() as int) =~= segments@);
    text
}

} // verus!
