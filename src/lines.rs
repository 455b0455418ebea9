use vstd::prelude::*;

verus! {

/// Lines joined by line feeds.
pub open spec fn join_lines(lines: Seq<Seq<char>>) -> Seq<char>
    decreases lines.len(),
{
    if lines.len() == 0 {
        Seq::empty()
    } else if lines.len() == 1 {
        lines[0]
    } else {
        join_lines(lines.drop_last()) + seq!['\n'] + lines.last()
    }
}

/// The number of line feeds in `s`.
pub open spec fn line_feed_count(s: Seq<char>) -> nat
    decreases s.len(),
{
    if s.len() == 0 {
        0
    } else {
        line_feed_count(s.drop_last()) + if s.last() == '\n' {
            1nat
        } else {
            0nat
        }
    }
}

/// How many lines `str::lines` finds in `s`: one per line feed, and one more
/// for a last line that does not end in one.
pub open spec fn line_count(s: Seq<char>) -> nat {
    if s.len() == 0 || s.last() == '\n' {
        line_feed_count(s)
    } else {
        line_feed_count(s) + 1
    }
}

pub open spec fn has_no_line_feed(s: Seq<char>) -> bool {
    !s.contains('\n')
}

pub open spec fn lines_without_feeds(lines: Seq<Seq<char>>) -> bool {
    forall|i: int| 0 <= i < lines.len() ==> has_no_line_feed(#[trigger] lines[i])
}

/// Line feeds of a concatenation add up.
pub proof fn lemma_line_feed_count_concat(a: Seq<char>, b: Seq<char>)
    ensures
        line_feed_count(a + b) == line_feed_count(a) + line_feed_count(b),
    decreases b.len(),
{
    if b.len() == 0 {
        assert(a + b =~= a);
    } else {
        assert((a + b).drop_last() =~= a + b.drop_last());
        lemma_line_feed_count_concat(a, b.drop_last());
    }
}

/// A text without line feeds counts none.
pub proof fn lemma_no_line_feed_count(s: Seq<char>)
    requires
        has_no_line_feed(s),
    ensures
        line_feed_count(s) == 0,
    decreases s.len(),
{
    if s.len() > 0 {
        assert(s.drop_last().contains('\n') ==> s.contains('\n')) by {
            if s.drop_last().contains('\n') {
                let k = choose|k: int| 0 <= k < s.drop_last().len() && s.drop_last()[k] == '\n';
                assert(s[k] == '\n');
            }
        }
        assert(s[s.len() - 1] != '\n');
        lemma_no_line_feed_count(s.drop_last());
    }
}

proof fn lemma_line_feed_alone()
    ensures
        line_feed_count(seq!['\n']) == 1,
{
    let s = seq!['\n'];
    assert(s.drop_last() =~= Seq::<char>::empty());
    assert(line_feed_count(s.drop_last()) == 0);
    assert(s.last() == '\n');
}

/// Joining lines without line feeds, the last of them not empty, gives a text
/// of exactly that many lines.
pub proof fn lemma_join_line_count(lines: Seq<Seq<char>>)
    requires
        lines.len() >= 1,
        lines_without_feeds(lines),
        lines.last().len() > 0,
    ensures
        line_count(join_lines(lines)) == lines.len(),
        line_feed_count(join_lines(lines)) + 1 == lines.len(),
    decreases lines.len(),
{
    let last = lines.last();
    assert(has_no_line_feed(lines[lines.len() - 1]));
    lemma_no_line_feed_count(last);
    assert(last[last.len() - 1] != '\n');
    if lines.len() > 1 {
        let rest = lines.drop_last();
        assert(lines_without_feeds(rest)) by {
            assert forall|i: int| 0 <= i < rest.len() implies has_no_line_feed(#[trigger] rest[i]) by {
                assert(rest[i] == lines[i]);
            }
        }
        if rest.last().len() > 0 {
            lemma_join_line_count(rest);
        } else {
            lemma_join_feed_count(rest);
        }
        lemma_line_feed_count_concat(join_lines(rest), seq!['\n']);
        lemma_line_feed_count_concat(join_lines(rest) + seq!['\n'], last);
        lemma_line_feed_alone();
    }
}

/// Joining lines without line feeds adds one line feed per line after the
/// first.
proof fn lemma_join_feed_count(lines: Seq<Seq<char>>)
    requires
        lines.len() >= 1,
        lines_without_feeds(lines),
    ensures
        line_feed_count(join_lines(lines)) + 1 == lines.len(),
    decreases lines.len(),
{
    assert(has_no_line_feed(lines[lines.len() - 1]));
    lemma_no_line_feed_count(lines.last());
    if lines.len() > 1 {
        let rest = lines.drop_last();
        assert(lines_without_feeds(rest)) by {
            assert forall|i: int| 0 <= i < rest.len() implies has_no_line_feed(#[trigger] rest[i]) by {
                assert(rest[i] == lines[i]);
            }
        }
        lemma_join_feed_count(rest);
        lemma_line_feed_count_concat(join_lines(rest), seq!['\n']);
        lemma_line_feed_count_concat(join_lines(rest) + seq!['\n'], lines.last());
        lemma_line_feed_alone();
    }
}


/// Two texts without line feeds make one.
pub proof fn lemma_concat_no_line_feed(a: Seq<char>, b: Seq<char>)
    requires
        has_no_line_feed(a),
        has_no_line_feed(b),
    ensures
        has_no_line_feed(a + b),
{
    if (a + b).contains('\n') {
        let k = choose|k: int| 0 <= k < (a + b).len() && (a + b)[k] == '\n';
        if k < a.len() {
            assert(a[k] == '\n');
        } else {
            assert(b[k - a.len()] == '\n');
        }
    }
}

} // verus!
