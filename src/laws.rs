use vstd::prelude::*;

use crate::document::{
    document_child_text, document_text, paragraph_child_text, paragraph_text, run_child_text,
    run_text, DocumentChild, Paragraph, ParagraphChild, RunChild,
};

verus! {

/// No character of `s` is a newline.
pub open spec fn no_newline(s: Seq<char>) -> bool {
    forall|i: int| 0 <= i < s.len() ==> s[i] != '\n'
}

/// The number of newline characters in `s`.
pub open spec fn newline_count(s: Seq<char>) -> nat
    decreases s.len(),
{
    if s.len() == 0 {
        0
    } else {
        newline_count(s.drop_last()) + if s.last() == '\n' { 1nat } else { 0nat }
    }
}

/// Splits `s` on newlines, `cur` being the part of the current line read so
/// far; a final line without a newline is kept when it is not empty.
pub open spec fn split_lines_from(s: Seq<char>, cur: Seq<char>) -> Seq<Seq<char>>
    decreases s.len(),
{
    if s.len() == 0 {
        if cur.len() == 0 {
            Seq::empty()
        } else {
            seq![cur]
        }
    } else if s[0] == '\n' {
        seq![cur] + split_lines_from(s.drop_first(), Seq::empty())
    } else {
        split_lines_from(s.drop_first(), cur.push(s[0]))
    }
}

/// The lines of `s`, split on newline characters.
pub open spec fn lines(s: Seq<char>) -> Seq<Seq<char>> {
    split_lines_from(s, Seq::empty())
}

/// Each line of `ls` followed by a newline.
pub open spec fn join_lines(ls: Seq<Seq<char>>) -> Seq<char>
    decreases ls.len(),
{
    if ls.len() == 0 {
        Seq::empty()
    } else {
        ls[0] + seq!['\n'] + join_lines(ls.drop_first())
    }
}

/// The number of paragraphs among the top-level nodes `cs`.
pub open spec fn paragraph_count(cs: Seq<DocumentChild>) -> nat
    decreases cs.len(),
{
    if cs.len() == 0 {
        0
    } else {
        paragraph_count(cs.drop_last()) + if cs.last() is Paragraph { 1nat } else { 0nat }
    }
}

/// The text of each paragraph among the top-level nodes `cs`, in order.
pub open spec fn paragraph_lines(cs: Seq<DocumentChild>) -> Seq<Seq<char>>
    decreases cs.len(),
{
    if cs.len() == 0 {
        Seq::empty()
    } else {
        paragraph_lines(cs.drop_last()) + match cs.last() {
            DocumentChild::Paragraph(p) => seq![paragraph_text(p.children@)],
            DocumentChild::Other => Seq::empty(),
        }
    }
}

/// No paragraph among `cs` has a newline inside its text.
pub open spec fn line_free(cs: Seq<DocumentChild>) -> bool {
    forall|i: int|
        0 <= i < cs.len() ==> match #[trigger] cs[i] {
            DocumentChild::Paragraph(p) => no_newline(paragraph_text(p.children@)),
            DocumentChild::Other => true,
        }
}

/// The concatenation of the strings `ss`, in order, with nothing between them.
pub open spec fn concat_all(ss: Seq<Seq<char>>) -> Seq<char>
    decreases ss.len(),
{
    if ss.len() == 0 {
        Seq::empty()
    } else {
        concat_all(ss.drop_last()) + ss.last()
    }
}

/// The text fragments of the run children `cs`, in order.
pub open spec fn run_fragments(cs: Seq<RunChild>) -> Seq<Seq<char>>
    decreases cs.len(),
{
    if cs.len() == 0 {
        Seq::empty()
    } else {
        run_fragments(cs.drop_last()) + match cs.last() {
            RunChild::Text(t) => seq![t@],
            RunChild::Other => Seq::empty(),
        }
    }
}

/// The text fragments of all runs among the paragraph children `cs`, in order.
pub open spec fn paragraph_fragments(cs: Seq<ParagraphChild>) -> Seq<Seq<char>>
    decreases cs.len(),
{
    if cs.len() == 0 {
        Seq::empty()
    } else {
        paragraph_fragments(cs.drop_last()) + match cs.last() {
            ParagraphChild::Run(r) => run_fragments(r.children@),
            ParagraphChild::Other => Seq::empty(),
        }
    }
}

/// The text of two node sequences laid end to end is the text of the first
/// followed by the text of the second.
pub proof fn lemma_document_text_concat(a: Seq<DocumentChild>, b: Seq<DocumentChild>)
    ensures
        document_text(a + b) == document_text(a) + document_text(b),
    decreases b.len(),
{
    if b.len() == 0 {
        assert(a + b =~= a);
        assert(document_text(a) + document_text(b) =~= document_text(a));
    } else {
        lemma_document_text_concat(a, b.drop_last());
        assert((a + b).drop_last() =~= a + b.drop_last());
        assert((a + b).last() == b.last());
        assert(document_text(a + b) =~= document_text(a) + document_text(b));
    }
}

/// Paragraph text distributes over concatenation of paragraph children.
pub proof fn lemma_paragraph_text_concat(a: Seq<ParagraphChild>, b: Seq<ParagraphChild>)
    ensures
        paragraph_text(a + b) == paragraph_text(a) + paragraph_text(b),
    decreases b.len(),
{
    if b.len() == 0 {
        assert(a + b =~= a);
        assert(paragraph_text(a) + paragraph_text(b) =~= paragraph_text(a));
    } else {
        lemma_paragraph_text_concat(a, b.drop_last());
        assert((a + b).drop_last() =~= a + b.drop_last());
        assert((a + b).last() == b.last());
        assert(paragraph_text(a + b) =~= paragraph_text(a) + paragraph_text(b));
    }
}

/// Run text distributes over concatenation of run children.
pub proof fn lemma_run_text_concat(a: Seq<RunChild>, b: Seq<RunChild>)
    ensures
        run_text(a + b) == run_text(a) + run_text(b),
    decreases b.len(),
{
    if b.len() == 0 {
        assert(a + b =~= a);
        assert(run_text(a) + run_text(b) =~= run_text(a));
    } else {
        lemma_run_text_concat(a, b.drop_last());
        assert((a + b).drop_last() =~= a + b.drop_last());
        assert((a + b).last() == b.last());
        assert(run_text(a + b) =~= run_text(a) + run_text(b));
    }
}

/// A document body without paragraphs has empty text, whatever other nodes
/// it holds.
pub proof fn lemma_no_paragraphs_empty(cs: Seq<DocumentChild>)
    requires
        forall|i: int| 0 <= i < cs.len() ==> !(#[trigger] cs[i] is Paragraph),
    ensures
        document_text(cs) == Seq::<char>::empty(),
    decreases cs.len(),
{
    if cs.len() > 0 {
        assert(!(cs[cs.len() - 1] is Paragraph));
        lemma_no_paragraphs_empty(cs.drop_last());
        assert(document_text(cs) =~= Seq::<char>::empty());
    }
}

/// A paragraph without runs yields an empty line: its text is empty and it
/// adds exactly one newline between the text before and after it.
pub proof fn lemma_empty_paragraph_line(
    before: Seq<DocumentChild>,
    p: Paragraph,
    after: Seq<DocumentChild>,
)
    requires
        forall|i: int| 0 <= i < p.children@.len() ==> !(#[trigger] p.children@[i] is Run),
    ensures
        paragraph_text(p.children@) == Seq::<char>::empty(),
        document_text(before + seq![DocumentChild::Paragraph(p)] + after) == document_text(before)
            + seq!['\n'] + document_text(after),
{
    lemma_no_runs_empty(p.children@);
    let one = seq![DocumentChild::Paragraph(p)];
    lemma_document_text_concat(before + one, after);
    lemma_document_text_concat(before, one);
    assert(one.drop_last() =~= Seq::<DocumentChild>::empty());
    assert(one.last() == DocumentChild::Paragraph(p));
    assert(document_text(one.drop_last()) == Seq::<char>::empty());
    assert(document_child_text(one.last()) =~= seq!['\n']);
    assert(document_text(one) =~= seq!['\n']);
}

proof fn lemma_no_runs_empty(cs: Seq<ParagraphChild>)
    requires
        forall|i: int| 0 <= i < cs.len() ==> !(#[trigger] cs[i] is Run),
    ensures
        paragraph_text(cs) == Seq::<char>::empty(),
    decreases cs.len(),
{
    if cs.len() > 0 {
        assert(!(cs[cs.len() - 1] is Run));
        lemma_no_runs_empty(cs.drop_last());
        assert(paragraph_text(cs) =~= Seq::<char>::empty());
    }
}

proof fn lemma_concat_append(a: Seq<Seq<char>>, b: Seq<Seq<char>>)
    ensures
        concat_all(a + b) == concat_all(a) + concat_all(b),
    decreases b.len(),
{
    if b.len() == 0 {
        assert(a + b =~= a);
        assert(concat_all(a) + concat_all(b) =~= concat_all(a));
    } else {
        lemma_concat_append(a, b.drop_last());
        assert((a + b).drop_last() =~= a + b.drop_last());
        assert(concat_all(a + b) =~= concat_all(a) + concat_all(b));
    }
}

proof fn lemma_run_text_fragments(cs: Seq<RunChild>)
    ensures
        run_text(cs) == concat_all(run_fragments(cs)),
    decreases cs.len(),
{
    if cs.len() > 0 {
        lemma_run_text_fragments(cs.drop_last());
        let last = match cs.last() {
            RunChild::Text(t) => seq![t@],
            RunChild::Other => Seq::<Seq<char>>::empty(),
        };
        lemma_concat_append(run_fragments(cs.drop_last()), last);
        match cs.last() {
            RunChild::Text(t) => {
                assert(last == seq![t@]);
                assert(last.drop_last() =~= Seq::<Seq<char>>::empty());
                assert(concat_all(last.drop_last()) == Seq::<char>::empty());
                assert(concat_all(last) =~= t@);
            },
            RunChild::Other => {},
        }
    }
}

/// The text of a paragraph is the concatenation of the text fragments of all
/// its runs, in document order, with no separator between them.
pub proof fn lemma_paragraph_text_fragments(cs: Seq<ParagraphChild>)
    ensures
        paragraph_text(cs) == concat_all(paragraph_fragments(cs)),
    decreases cs.len(),
{
    if cs.len() > 0 {
        lemma_paragraph_text_fragments(cs.drop_last());
        let last = match cs.last() {
            ParagraphChild::Run(r) => run_fragments(r.children@),
            ParagraphChild::Other => Seq::<Seq<char>>::empty(),
        };
        lemma_concat_append(paragraph_fragments(cs.drop_last()), last);
        match cs.last() {
            ParagraphChild::Run(r) => lemma_run_text_fragments(r.children@),
            ParagraphChild::Other => {},
        }
        assert(concat_all(last) == paragraph_child_text(cs.last()));
    }
}

/// A top-level node that is not a paragraph (a table, a section mark) adds
/// nothing, and the text around it is assembled as if it were absent.
pub proof fn lemma_skip_non_paragraph(
    before: Seq<DocumentChild>,
    c: DocumentChild,
    after: Seq<DocumentChild>,
)
    requires
        !(c is Paragraph),
    ensures
        document_text(before + seq![c] + after) == document_text(before) + document_text(after),
{
    let one = seq![c];
    lemma_document_text_concat(before + one, after);
    lemma_document_text_concat(before, one);
    assert(one.drop_last() =~= Seq::<DocumentChild>::empty());
    assert(one.last() == c);
    assert(document_text(one.drop_last()) == Seq::<char>::empty());
    assert(document_text(one) =~= Seq::<char>::empty());
    assert(document_text(before) + document_text(one) =~= document_text(before));
}

/// A paragraph child that is not a run (a hyperlink, a bookmark) adds nothing
/// to the paragraph's text.
pub proof fn lemma_skip_non_run(
    before: Seq<ParagraphChild>,
    c: ParagraphChild,
    after: Seq<ParagraphChild>,
)
    requires
        !(c is Run),
    ensures
        paragraph_text(before + seq![c] + after) == paragraph_text(before) + paragraph_text(after),
{
    let one = seq![c];
    lemma_paragraph_text_concat(before + one, after);
    lemma_paragraph_text_concat(before, one);
    assert(one.drop_last() =~= Seq::<ParagraphChild>::empty());
    assert(one.last() == c);
    assert(paragraph_text(one.drop_last()) == Seq::<char>::empty());
    assert(paragraph_text(one) =~= Seq::<char>::empty());
    assert(paragraph_text(before) + paragraph_text(one) =~= paragraph_text(before));
}

/// A run child that is not text (a break, a tab, an image) adds nothing to the
/// run's text.
pub proof fn lemma_skip_non_text(before: Seq<RunChild>, c: RunChild, after: Seq<RunChild>)
    requires
        !(c is Text),
    ensures
        run_text(before + seq![c] + after) == run_text(before) + run_text(after),
{
    let one = seq![c];
    lemma_run_text_concat(before + one, after);
    lemma_run_text_concat(before, one);
    assert(one.drop_last() =~= Seq::<RunChild>::empty());
    assert(one.last() == c);
    assert(run_text(one.drop_last()) == Seq::<char>::empty());
    assert(run_text(one) =~= Seq::<char>::empty());
    assert(run_text(before) + run_text(one) =~= run_text(before));
}

proof fn lemma_newline_count_concat(a: Seq<char>, b: Seq<char>)
    ensures
        newline_count(a + b) == newline_count(a) + newline_count(b),
    decreases b.len(),
{
    if b.len() == 0 {
        assert(a + b =~= a);
    } else {
        lemma_newline_count_concat(a, b.drop_last());
        assert((a + b).drop_last() =~= a + b.drop_last());
        assert((a + b).last() == b.last());
    }
}

proof fn lemma_no_newline_count(s: Seq<char>)
    requires
        no_newline(s),
    ensures
        newline_count(s) == 0,
    decreases s.len(),
{
    if s.len() > 0 {
        assert(s.last() == s[s.len() - 1]);
        lemma_no_newline_count(s.drop_last());
    }
}

proof fn lemma_join_push(ls: Seq<Seq<char>>, x: Seq<char>)
    ensures
        join_lines(ls.push(x)) == join_lines(ls) + x + seq!['\n'],
    decreases ls.len(),
{
    if ls.len() == 0 {
        assert(ls.push(x).drop_first() =~= Seq::<Seq<char>>::empty());
        assert(ls.push(x)[0] == x);
        assert(join_lines(ls.push(x).drop_first()) == Seq::<char>::empty());
        assert(join_lines(ls) == Seq::<char>::empty());
        assert(join_lines(ls.push(x)) =~= join_lines(ls) + x + seq!['\n']);
    } else {
        lemma_join_push(ls.drop_first(), x);
        assert(ls.push(x).drop_first() =~= ls.drop_first().push(x));
        assert(ls.push(x)[0] == ls[0]);
        assert(join_lines(ls.push(x)) =~= join_lines(ls) + x + seq!['\n']);
    }
}

proof fn lemma_split_line(l: Seq<char>, rest: Seq<char>, cur: Seq<char>)
    requires
        no_newline(l),
    ensures
        split_lines_from(l + seq!['\n'] + rest, cur) == seq![cur + l] + split_lines_from(
            rest,
            Seq::empty(),
        ),
    decreases l.len(),
{
    let s = l + seq!['\n'] + rest;
    if l.len() == 0 {
        assert(s[0] == '\n');
        assert(s.drop_first() =~= rest);
        assert(cur + l =~= cur);
    } else {
        assert(s[0] == l[0]);
        assert(s.drop_first() =~= l.drop_first() + seq!['\n'] + rest);
        lemma_split_line(l.drop_first(), rest, cur.push(l[0]));
        assert(cur.push(l[0]) + l.drop_first() =~= cur + l);
    }
}

proof fn lemma_lines_of_join(ls: Seq<Seq<char>>)
    requires
        forall|k: int| 0 <= k < ls.len() ==> no_newline(#[trigger] ls[k]),
    ensures
        lines(join_lines(ls)) == ls,
    decreases ls.len(),
{
    if ls.len() > 0 {
        let rest = ls.drop_first();
        assert forall|k: int| 0 <= k < rest.len() implies no_newline(#[trigger] rest[k]) by {
            assert(rest[k] == ls[k + 1]);
        }
        lemma_lines_of_join(rest);
        assert(no_newline(ls[0]));
        lemma_split_line(ls[0], join_lines(rest), Seq::empty());
        assert(Seq::<char>::empty() + ls[0] =~= ls[0]);
        assert(seq![ls[0]] + rest =~= ls);
    }
}

proof fn lemma_document_lines(cs: Seq<DocumentChild>)
    requires
        line_free(cs),
    ensures
        document_text(cs) == join_lines(paragraph_lines(cs)),
        paragraph_lines(cs).len() == paragraph_count(cs),
        forall|k: int|
            0 <= k < paragraph_lines(cs).len() ==> no_newline(#[trigger] paragraph_lines(cs)[k]),
        newline_count(document_text(cs)) == paragraph_count(cs),
    decreases cs.len(),
{
    if cs.len() > 0 {
        let prefix = cs.drop_last();
        assert forall|i: int| 0 <= i < prefix.len() implies match #[trigger] prefix[i] {
            DocumentChild::Paragraph(p) => no_newline(paragraph_text(p.children@)),
            DocumentChild::Other => true,
        } by {
            assert(prefix[i] == cs[i]);
        }
        lemma_document_lines(prefix);
        let c = cs.last();
        assert(c == cs[cs.len() - 1]);
        lemma_newline_count_concat(document_text(prefix), document_child_text(c));
        match c {
            DocumentChild::Paragraph(p) => {
                let t = paragraph_text(p.children@);
                lemma_join_push(paragraph_lines(prefix), t);
                assert(paragraph_lines(prefix) + seq![t] =~= paragraph_lines(prefix).push(t));
                lemma_no_newline_count(t);
                lemma_newline_count_concat(t, seq!['\n']);
                assert(seq!['\n'].drop_last() =~= Seq::<char>::empty());
                assert(seq!['\n'].last() == '\n');
                assert(newline_count(seq!['\n'].drop_last()) == 0);
                assert(newline_count(seq!['\n']) == 1);
                let ls = paragraph_lines(cs);
                assert forall|k: int| 0 <= k < ls.len() implies no_newline(#[trigger] ls[k]) by {
                    if k < ls.len() - 1 {
                        assert(ls[k] == paragraph_lines(prefix)[k]);
                    } else {
                        assert(ls[k] == t);
                    }
                }
            },
            DocumentChild::Other => {
                assert(paragraph_lines(cs) =~= paragraph_lines(prefix));
                assert(document_text(cs) =~= document_text(prefix));
            },
        }
    }
}

/// Where no paragraph text holds a newline, the text of a document has exactly
/// one newline per paragraph, and its lines are the paragraphs' texts in order.
pub proof fn lemma_paragraph_lines(cs: Seq<DocumentChild>)
    requires
        line_free(cs),
    ensures
        newline_count(document_text(cs)) == paragraph_count(cs),
        lines(document_text(cs)) == paragraph_lines(cs),
{
    lemma_document_lines(cs);
    lemma_lines_of_join(paragraph_lines(cs));
}

/// What a paragraph holds once every non-run child and every non-text run
/// child is removed: for each run, its text fragments.
pub open spec fn paragraph_skeleton(cs: Seq<ParagraphChild>) -> Seq<Seq<Seq<char>>>
    decreases cs.len(),
{
    if cs.len() == 0 {
        Seq::empty()
    } else {
        paragraph_skeleton(cs.drop_last()) + match cs.last() {
            ParagraphChild::Run(r) => seq![run_fragments(r.children@)],
            ParagraphChild::Other => Seq::empty(),
        }
    }
}

/// What a document body holds once every node that bears no text is removed,
/// at every level: for each paragraph, its skeleton.
pub open spec fn document_skeleton(cs: Seq<DocumentChild>) -> Seq<Seq<Seq<Seq<char>>>>
    decreases cs.len(),
{
    if cs.len() == 0 {
        Seq::empty()
    } else {
        document_skeleton(cs.drop_last()) + match cs.last() {
            DocumentChild::Paragraph(p) => seq![paragraph_skeleton(p.children@)],
            DocumentChild::Other => Seq::empty(),
        }
    }
}

/// The text of a paragraph skeleton: all fragments of all runs, in order.
pub open spec fn paragraph_skeleton_text(ps: Seq<Seq<Seq<char>>>) -> Seq<char>
    decreases ps.len(),
{
    if ps.len() == 0 {
        Seq::empty()
    } else {
        paragraph_skeleton_text(ps.drop_last()) + concat_all(ps.last())
    }
}

/// The text of a document skeleton: each paragraph's text and a newline.
pub open spec fn skeleton_text(ds: Seq<Seq<Seq<Seq<char>>>>) -> Seq<char>
    decreases ds.len(),
{
    if ds.len() == 0 {
        Seq::empty()
    } else {
        skeleton_text(ds.drop_last()) + paragraph_skeleton_text(ds.last()) + seq!['\n']
    }
}

proof fn lemma_paragraph_skeleton_text(cs: Seq<ParagraphChild>)
    ensures
        paragraph_text(cs) == paragraph_skeleton_text(paragraph_skeleton(cs)),
    decreases cs.len(),
{
    if cs.len() > 0 {
        lemma_paragraph_skeleton_text(cs.drop_last());
        let prev = paragraph_skeleton(cs.drop_last());
        match cs.last() {
            ParagraphChild::Run(r) => {
                let frags = run_fragments(r.children@);
                lemma_run_text_fragments(r.children@);
                assert((prev + seq![frags]).drop_last() =~= prev);
                assert((prev + seq![frags]).last() == frags);
            },
            ParagraphChild::Other => {
                assert(prev + Seq::<Seq<Seq<char>>>::empty() =~= prev);
                assert(paragraph_text(cs) =~= paragraph_text(cs.drop_last()));
            },
        }
    }
}

proof fn lemma_document_skeleton_text(cs: Seq<DocumentChild>)
    ensures
        document_text(cs) == skeleton_text(document_skeleton(cs)),
    decreases cs.len(),
{
    if cs.len() > 0 {
        lemma_document_skeleton_text(cs.drop_last());
        let prev = document_skeleton(cs.drop_last());
        match cs.last() {
            DocumentChild::Paragraph(p) => {
                let ps = paragraph_skeleton(p.children@);
                lemma_paragraph_skeleton_text(p.children@);
                assert((prev + seq![ps]).drop_last() =~= prev);
                assert((prev + seq![ps]).last() == ps);
                assert(document_text(cs) =~= skeleton_text(document_skeleton(cs)));
            },
            DocumentChild::Other => {
                assert(prev + Seq::<Seq<Seq<Seq<char>>>>::empty() =~= prev);
                assert(document_text(cs) =~= document_text(cs.drop_last()));
            },
        }
    }
}

/// Nodes that bear no text are ignored wherever they stand: two document
/// bodies that differ only by tables, section marks, bookmarks, breaks and
/// the like, inserted or removed at any position and at any level, have the
/// same text.
pub proof fn lemma_text_ignores_other_nodes(a: Seq<DocumentChild>, b: Seq<DocumentChild>)
    requires
        document_skeleton(a) == document_skeleton(b),
    ensures
        document_text(a) == document_text(b),
{
    lemma_document_skeleton_text(a);
    lemma_document_skeleton_text(b);
}

} // verus!
