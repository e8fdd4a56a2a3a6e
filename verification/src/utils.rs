//! A file as its text: how it splits into lines, and what appending or
//! prepending lines makes of it.
use vstd::prelude::*;
use vstd::string::*;
use crate::text::{chars_of, has_substring, seq_contains, string_of, string_views};

verus! {

/// The lines of `s` as `BufRead::read_line` reads them one after another:
/// each line keeps its terminating `'\n'`, the last one may lack it, and an
/// empty text has no line.
pub open spec fn lines_of(s: Seq<char>) -> Seq<Seq<char>>
    decreases s.len(),
{
    if s.len() == 0 {
        Seq::empty()
    } else {
        let prev = lines_of(s.drop_last());
        if prev.len() > 0 && prev.last().last() != '\n' {
            prev.update(prev.len() - 1, prev.last().push(s.last()))
        } else {
            prev.push(seq![s.last()])
        }
    }
}

/// Each line that `lines_of` gives is non-empty, and only the last one may
/// end in something other than a line feed.
pub open spec fn well_formed_lines(ls: Seq<Seq<char>>) -> bool {
    &&& forall|k: int| 0 <= k < ls.len() ==> (#[trigger] ls[k]).len() > 0
    &&& forall|k: int| 0 <= k < ls.len() - 1 ==> (#[trigger] ls[k]).last() == '\n'
    &&& forall|k: int, j: int|
        0 <= k < ls.len() && 0 <= j < ls[k].len() - 1 ==> #[trigger] ls[k][j] != '\n'
}

/// Splitting a text into lines and joining the lines again gives the text
/// back, and the lines are well formed.
pub proof fn lemma_lines_of(s: Seq<char>)
    ensures
        lines_of(s).flatten_alt() == s,
        well_formed_lines(lines_of(s)),
    decreases s.len(),
{
    if s.len() > 0 {
        let t = s.drop_last();
        lemma_lines_of(t);
        let prev = lines_of(t);
        let x = s.last();
        if prev.len() > 0 && prev.last().last() != '\n' {
            let ls = prev.update(prev.len() - 1, prev.last().push(x));
            assert(ls.drop_last() =~= prev.drop_last());
            assert(prev.drop_last().flatten_alt() + prev.last() == t);
            assert(ls.flatten_alt() == ls.drop_last().flatten_alt() + ls.last());
            assert(ls.last() == prev.last().push(x));
            assert(prev.flatten_alt() == prev.drop_last().flatten_alt() + prev.last());
            assert(s =~= t.push(x));
            assert(ls.flatten_alt() =~= s);
            assert forall|k: int, j: int|
                0 <= k < ls.len() && 0 <= j < ls[k].len() - 1 implies #[trigger] ls[k][j]
                != '\n' by {
                if k == ls.len() - 1 {
                    if j < prev.last().len() - 1 {
                        assert(ls[k][j] == prev[k][j]);
                    } else {
                        assert(ls[k][j] == prev.last().last());
                    }
                } else {
                    assert(ls[k] == prev[k]);
                }
            }
        } else {
            let ls = prev.push(seq![x]);
            assert(ls.drop_last() =~= prev);
            assert(ls.flatten_alt() =~= s);
            assert forall|k: int| 0 <= k < ls.len() - 1 implies (#[trigger] ls[k]).last()
                == '\n' by {
                assert(ls[k] == prev[k]);
            }
            assert forall|k: int, j: int|
                0 <= k < ls.len() && 0 <= j < ls[k].len() - 1 implies #[trigger] ls[k][j]
                != '\n' by {
                assert(ls[k] == prev[k]);
            }
        }
    }
}

/// The lines of `text`, each with its line feed, as they are read one after
/// another until the end of the file.
pub fn file_to_vec_string(text: &str) -> (lines: Vec<String>)
    ensures
        string_views(lines@) == lines_of(text@),
{
    let s = chars_of(text);
    let mut lines: Vec<String> = Vec::new();
    let mut cur: Vec<char> = Vec::new();
    let mut i: usize = 0;
    assert(s@.take(0) =~= Seq::<char>::empty());
    while i < s.len()
        invariant
            i <= s@.len(),
            s@ == text@,
            cur@.len() == 0 ==> string_views(lines@) == lines_of(s@.take(i as int)),
            cur@.len() > 0 ==> string_views(lines@).push(cur@) == lines_of(s@.take(i as int)),
            cur@.len() > 0 ==> cur@.last() != '\n',
            forall|k: int| 0 <= k < lines@.len() ==> (#[trigger] lines@[k])@.len() > 0
                && lines@[k]@.last() == '\n',
        decreases s@.len() - i,
    {
        let c = s[i];
        let ghost before = s@.take(i as int);
        let ghost after = s@.take(i + 1);
        assert(after.drop_last() =~= before);
        assert(after.last() == c);
        let ghost prev = lines_of(before);
        let ghost old_lines = lines@;
        let ghost old_cur = cur@;
        cur.push(c);
        proof {
            if old_cur.len() > 0 {
                assert(prev.last() == old_cur);
                assert(string_views(old_lines).push(cur@) =~= prev.update(
                    prev.len() - 1,
                    prev.last().push(c),
                ));
            } else {
                if prev.len() > 0 {
                    assert(prev.last() == old_lines[old_lines.len() - 1]@);
                }
                assert(cur@ =~= seq![c]);
                assert(string_views(old_lines).push(cur@) =~= prev.push(seq![c]));
            }
        }
        if c == '\n' {
            let line = string_of(cur.as_slice());
            lines.push(line);
            cur = Vec::new();
            assert(string_views(lines@) =~= string_views(old_lines).push(line@));
        }
        i = i + 1;
    }
    assert(s@.take(s@.len() as int) =~= s@);
    if cur.len() > 0 {
        let line = string_of(cur.as_slice());
        let ghost old_lines = lines@;
        lines.push(line);
        assert(string_views(lines@) =~= string_views(old_lines).push(line@));
    }
    lines
}

/// Which of the given lines a conditional write copies.
pub enum LineFilter {
    /// Every line.
    All,
    /// The lines that hold no `@import` rule.
    WithoutImports,
}

/// The text `"@import"`.
pub open spec fn import_keyword() -> Seq<char> {
    seq!['@', 'i', 'm', 'p', 'o', 'r', 't']
}

/// Whether the filter keeps `line`.
pub open spec fn keeps(filter: LineFilter, line: Seq<char>) -> bool {
    match filter {
        LineFilter::All => true,
        LineFilter::WithoutImports => !has_substring(line, import_keyword()),
    }
}

/// The lines that the filter keeps, in order.
pub open spec fn kept_lines(filter: LineFilter, lines: Seq<Seq<char>>) -> Seq<Seq<char>>
    decreases lines.len(),
{
    if lines.len() == 0 {
        lines
    } else {
        let prev = kept_lines(filter, lines.drop_last());
        if keeps(filter, lines.last()) {
            prev.push(lines.last())
        } else {
            prev
        }
    }
}

/// What a conditional write appends to a file: nothing for no lines, else
/// the kept lines one after the other and then a line feed.
pub open spec fn appended_text(filter: LineFilter, lines: Seq<Seq<char>>) -> Seq<char> {
    if lines.len() == 0 {
        Seq::empty()
    } else {
        kept_lines(filter, lines).flatten_alt().push('\n')
    }
}

/// Whether the filter keeps `line`.
pub fn filter_keeps(filter: &LineFilter, line: &[char]) -> (b: bool)
    ensures
        b == keeps(*filter, line@),
{
    match filter {
        LineFilter::All => true,
        LineFilter::WithoutImports => {
            let kw: [char; 7] = ['@', 'i', 'm', 'p', 'o', 'r', 't'];
            assert(kw@ =~= import_keyword());
            !seq_contains(line, &kw)
        },
    }
}

/// The lines of `lines` whose entry in `keep` is set, in order (`keep`
/// has one entry per line).
pub open spec fn selected_lines(lines: Seq<Seq<char>>, keep: Seq<bool>) -> Seq<Seq<char>>
    decreases lines.len(),
{
    if lines.len() == 0 {
        lines
    } else {
        let prev = selected_lines(lines.drop_last(), keep.drop_last());
        if keep.last() {
            prev.push(lines.last())
        } else {
            prev
        }
    }
}

/// What a conditional write appends to a file: nothing for no lines, else
/// the selected lines one after the other and then a line feed.
pub open spec fn selected_text(lines: Seq<Seq<char>>, keep: Seq<bool>) -> Seq<char> {
    if lines.len() == 0 {
        Seq::empty()
    } else {
        selected_lines(lines, keep).flatten_alt().push('\n')
    }
}

/// Selecting the lines that a filter keeps gives the lines it keeps.
pub proof fn lemma_selected_by_filter(filter: LineFilter, lines: Seq<Seq<char>>, keep: Seq<bool>)
    requires
        keep.len() == lines.len(),
        forall|i: int| 0 <= i < lines.len() ==> #[trigger] keep[i] == keeps(filter, lines[i]),
    ensures
        selected_lines(lines, keep) == kept_lines(filter, lines),
        selected_text(lines, keep) == appended_text(filter, lines),
    decreases lines.len(),
{
    if lines.len() > 0 {
        let l = lines.drop_last();
        let k = keep.drop_last();
        assert forall|i: int| 0 <= i < l.len() implies #[trigger] k[i] == keeps(filter, l[i]) by {
            assert(k[i] == keep[i]);
            assert(l[i] == lines[i]);
        }
        assert(keep.last() == keep[lines.len() - 1]);
        lemma_selected_by_filter(filter, l, k);
    }
}

/// The file text `existing` after the lines of `content` for which
/// `condition`, called once for each line in order with its index and the
/// line, answers `true` are appended to it, followed by a line feed; an
/// empty `content` leaves the file as it is.
pub fn conditional_write_vec_string_in_file<F: Fn(usize, &String) -> bool>(
    existing: &str,
    content: &Vec<String>,
    condition: F,
) -> (out: String)
    requires
        forall|i: int| 0 <= i < content@.len() ==> call_requires(condition, (i as usize, &content@[i])),
    ensures
        exists|keep: Seq<bool>|
            #![trigger selected_text(string_views(content@), keep)]
            {
                &&& keep.len() == content@.len()
                &&& forall|i: int|
                    0 <= i < content@.len() ==> call_ensures(
                        condition,
                        (i as usize, &content@[i]),
                        #[trigger] keep[i],
                    )
                &&& out@ == existing@ + selected_text(string_views(content@), keep)
            },
{
    let mut out = chars_of(existing);
    if content.len() == 0 {
        assert(out@ + Seq::<char>::empty() =~= out@);
        let ghost none = Seq::<bool>::empty();
        assert(selected_text(string_views(content@), none) =~= Seq::<char>::empty());
        let r = string_of(out.as_slice());
        assert(r@ == existing@ + selected_text(string_views(content@), none));
        return r;
    }
    let ghost lines = string_views(content@);
    let ghost mut keep: Seq<bool> = Seq::empty();
    let mut i: usize = 0;
    assert(lines.take(0) =~= Seq::<Seq<char>>::empty());
    assert(existing@ + Seq::<char>::empty() =~= existing@);
    while i < content.len()
        invariant
            i <= content@.len(),
            lines == string_views(content@),
            keep.len() == i,
            forall|j: int| 0 <= j < content@.len() ==> call_requires(condition, (j as usize, &content@[j])),
            forall|j: int|
                0 <= j < i ==> call_ensures(condition, (j as usize, &content@[j]), #[trigger] keep[j]),
            out@ == existing@ + selected_lines(lines.take(i as int), keep).flatten_alt(),
        decreases content@.len() - i,
    {
        let line = chars_of(content[i].as_str());
        let ghost prefix = lines.take(i + 1);
        assert(prefix.drop_last() =~= lines.take(i as int));
        assert(prefix.last() == line@);
        let b = condition(i, &content[i]);
        let ghost old_keep = keep;
        proof {
            keep = keep.push(b);
            assert(keep.drop_last() =~= old_keep);
        }
        if b {
            let ghost k = selected_lines(lines.take(i as int), old_keep);
            let mut j: usize = 0;
            let ghost out0 = out@;
            while j < line.len()
                invariant
                    j <= line@.len(),
                    out@ == out0 + line@.take(j as int),
                decreases line@.len() - j,
            {
                out.push(line[j]);
                j = j + 1;
            }
            assert(line@.take(line@.len() as int) =~= line@);
            assert(k.push(line@).drop_last() =~= k);
            assert(out@ =~= existing@ + k.push(line@).flatten_alt());
        }
        assert forall|j: int|
            0 <= j < i + 1 implies call_ensures(condition, (j as usize, &content@[j]), #[trigger] keep[j]) by {
            if j < i {
                assert(keep[j] == old_keep[j]);
            }
        }
        i = i + 1;
    }
    assert(lines.take(content@.len() as int) =~= lines);
    out.push('\n');
    let r = string_of(out.as_slice());
    assert(r@ == existing@ + selected_text(string_views(content@), keep));
    r
}

/// The file text `existing` after every line of `content` is appended to
/// it, followed by a line feed; an empty `content` leaves it as it is.
pub fn write_vec_string_in_file(existing: &str, content: &Vec<String>) -> (out: String)
    ensures
        out@ == existing@ + appended_text(LineFilter::All, string_views(content@)),
{
    let every = |_i: usize, _line: &String| -> (b: bool)
        ensures
            b,
        { true };
    let out = conditional_write_vec_string_in_file(existing, content, every);
    proof {
        let lines = string_views(content@);
        let keep = choose|keep: Seq<bool>|
            {
                &&& keep.len() == content@.len()
                &&& forall|i: int|
                    0 <= i < content@.len() ==> call_ensures(
                        every,
                        (i as usize, &content@[i]),
                        #[trigger] keep[i],
                    )
                &&& out@ == existing@ + selected_text(lines, keep)
            };
        assert forall|i: int| 0 <= i < lines.len() implies #[trigger] keep[i] == keeps(
            LineFilter::All,
            lines[i],
        ) by {
            assert(call_ensures(every, (i as usize, &content@[i]), keep[i]));
        }
        lemma_selected_by_filter(LineFilter::All, lines, keep);
    }
    out
}

/// The filter that keeps every line keeps them all.
pub proof fn lemma_kept_all(lines: Seq<Seq<char>>)
    ensures
        kept_lines(LineFilter::All, lines) == lines,
    decreases lines.len(),
{
    if lines.len() > 0 {
        lemma_kept_all(lines.drop_last());
        assert(lines.drop_last().push(lines.last()) =~= lines);
    }
}

/// Appending to a file the lines read from a text appends the text itself
/// and a line feed (nothing for an empty text).
pub proof fn law_append_read_back(existing: Seq<char>, t: Seq<char>)
    ensures
        t.len() > 0 ==> existing + appended_text(LineFilter::All, lines_of(t)) == existing + t
            + seq!['\n'],
        t.len() == 0 ==> existing + appended_text(LineFilter::All, lines_of(t)) == existing,
{
    lemma_lines_of(t);
    lemma_kept_all(lines_of(t));
    if t.len() > 0 {
        assert(lines_of(t).len() > 0) by {
            if lines_of(t).len() == 0 {
                assert(lines_of(t).flatten_alt() =~= Seq::<char>::empty());
            }
        }
        assert(existing + t.push('\n') =~= existing + t + seq!['\n']);
    } else {
        assert(existing + Seq::<char>::empty() =~= existing);
    }
}

/// A line as `read_line` gives it when a line feed ends it: not empty,
/// ending in a line feed and holding no other.
pub open spec fn is_full_line(l: Seq<char>) -> bool {
    &&& l.len() > 0
    &&& l.last() == '\n'
    &&& forall|j: int| 0 <= j < l.len() - 1 ==> l[j] != '\n'
}

/// The last line of a non-empty text ends with the text's last character.
proof fn lemma_lines_last(s: Seq<char>)
    requires
        s.len() > 0,
    ensures
        lines_of(s).len() > 0,
        lines_of(s).last().len() > 0,
        lines_of(s).last().last() == s.last(),
{
}

/// Splitting a text that is empty or ends in a line feed, followed by more
/// text, gives the lines of the first and then those of the second.
proof fn lemma_lines_concat(a: Seq<char>, b: Seq<char>)
    requires
        a.len() == 0 || a.last() == '\n',
    ensures
        lines_of(a + b) == lines_of(a) + lines_of(b),
    decreases b.len(),
{
    if b.len() == 0 {
        assert(a + b =~= a);
        assert(lines_of(a) + lines_of(b) =~= lines_of(a));
    } else {
        let b0 = b.drop_last();
        lemma_lines_concat(a, b0);
        assert((a + b).drop_last() =~= a + b0);
        assert((a + b).last() == b.last());
        let la = lines_of(a);
        let lb0 = lines_of(b0);
        let prev = lines_of(a + b0);
        assert(prev == la + lb0);
        if b0.len() == 0 {
            assert(lb0 =~= Seq::<Seq<char>>::empty());
            assert(prev =~= la);
            if a.len() > 0 {
                lemma_lines_last(a);
            }
            assert(lines_of(b) =~= seq![seq![b.last()]]);
            assert(lines_of(a + b) =~= la + lines_of(b));
        } else {
            lemma_lines_last(b0);
            assert(prev.last() == lb0.last());
            if lb0.last().last() != '\n' {
                assert(lines_of(a + b) =~= la + lines_of(b));
            } else {
                assert(lines_of(a + b) =~= la + lines_of(b));
            }
        }
    }
}

/// A text that holds a line feed at most at its end is one line.
proof fn lemma_single_line(l: Seq<char>)
    requires
        l.len() > 0,
        forall|j: int| 0 <= j < l.len() - 1 ==> l[j] != '\n',
    ensures
        lines_of(l) == seq![l],
    decreases l.len(),
{
    let l0 = l.drop_last();
    if l0.len() == 0 {
        assert(lines_of(l0) =~= Seq::<Seq<char>>::empty());
        assert(seq![l.last()] =~= l);
        assert(lines_of(l) =~= seq![l]);
    } else {
        assert forall|j: int| 0 <= j < l0.len() - 1 implies l0[j] != '\n' by {
            assert(l0[j] == l[j]);
        }
        lemma_single_line(l0);
        assert(l0.last() == l[l.len() - 2]);
        assert(l0.push(l.last()) =~= l);
        assert(seq![l0].update(0, l0.push(l.last())) =~= seq![l]);
        assert(lines_of(l) =~= seq![l]);
    }
}

/// Joining full lines and splitting the result gives the lines back.
proof fn lemma_lines_of_flatten(content: Seq<Seq<char>>)
    requires
        forall|i: int| 0 <= i < content.len() ==> is_full_line(#[trigger] content[i]),
    ensures
        lines_of(content.flatten_alt()) == content,
        content.len() > 0 ==> content.flatten_alt().len() > 0 && content.flatten_alt().last()
            == '\n',
    decreases content.len(),
{
    if content.len() == 0 {
        assert(lines_of(content.flatten_alt()) =~= content);
    } else {
        let c0 = content.drop_last();
        let l = content.last();
        assert(is_full_line(content[content.len() - 1]));
        assert forall|i: int| 0 <= i < c0.len() implies is_full_line(#[trigger] c0[i]) by {
            assert(c0[i] == content[i]);
        }
        lemma_lines_of_flatten(c0);
        assert(content.flatten_alt() == c0.flatten_alt() + l);
        lemma_lines_concat(c0.flatten_alt(), l);
        lemma_single_line(l);
        assert(c0 + seq![l] =~= content);
        assert((c0.flatten_alt() + l).last() == l.last());
    }
}

/// Appending full lines to a text that is empty or ends in a line feed, and
/// reading the result line by line, gives the old lines, the new ones and
/// one more line that is a bare line feed.
pub proof fn law_append_lines_read_back(existing: Seq<char>, content: Seq<Seq<char>>)
    requires
        existing.len() == 0 || existing.last() == '\n',
        content.len() > 0,
        forall|i: int| 0 <= i < content.len() ==> is_full_line(#[trigger] content[i]),
    ensures
        lines_of(existing + appended_text(LineFilter::All, content)) == lines_of(existing) + content
            + seq![seq!['\n']],
{
    lemma_kept_all(content);
    lemma_lines_of_flatten(content);
    let f = content.flatten_alt();
    let a = existing + f;
    assert(existing + appended_text(LineFilter::All, content) =~= a + seq!['\n']);
    lemma_lines_concat(existing, f);
    assert(a.last() == f.last());
    lemma_lines_concat(a, seq!['\n']);
    lemma_single_line(seq!['\n']);
}

/// Joining lines distributes over putting sequences of lines one after the
/// other.
pub proof fn lemma_flatten_concat(a: Seq<Seq<char>>, b: Seq<Seq<char>>)
    ensures
        (a + b).flatten_alt() == a.flatten_alt() + b.flatten_alt(),
    decreases b.len(),
{
    if b.len() == 0 {
        assert(a + b =~= a);
        assert(a.flatten_alt() + Seq::<char>::empty() =~= a.flatten_alt());
    } else {
        lemma_flatten_concat(a, b.drop_last());
        assert((a + b).drop_last() =~= a + b.drop_last());
        assert((a + b).last() == b.last());
        assert(a.flatten_alt() + b.drop_last().flatten_alt() + b.last() =~= a.flatten_alt() + (
        b.drop_last().flatten_alt() + b.last()));
    }
}

/// The file text `existing` after the lines of `content` are put in front of
/// it: the lines, a line feed, the former text, and a closing line feed; an
/// empty `content` leaves the file as it is.
pub fn write_vec_string_in_file_start(existing: &str, content: &Vec<String>) -> (out: String)
    ensures
        content@.len() == 0 ==> out@ == existing@,
        content@.len() > 0 ==> out@ == string_views(content@).flatten_alt() + seq!['\n']
            + existing@ + seq!['\n'],
{
    if content.len() == 0 {
        return existing.to_owned();
    }
    let former = file_to_vec_string(existing);
    let mut new_content: Vec<String> = Vec::new();
    let mut i: usize = 0;
    while i < content.len()
        invariant
            i <= content@.len(),
            string_views(new_content@) == string_views(content@).take(i as int),
        decreases content@.len() - i,
    {
        let ghost old_new = new_content@;
        let item = content[i].clone();
        assert(item@ == content@[i as int]@);
        new_content.push(item);
        assert(new_content@ == old_new.push(item));
        assert(string_views(new_content@) =~= string_views(old_new).push(item@));
        assert(string_views(content@).take(i + 1) =~= string_views(content@).take(i as int).push(
            content@[i as int]@,
        ));
        i = i + 1;
    }
    assert(string_views(content@).take(content@.len() as int) =~= string_views(content@));
    let nl = "\n".to_owned();
    proof {
        reveal_strlit("\n");
    }
    assert(nl@ =~= seq!['\n']);
    let ghost before_nl = new_content@;
    new_content.push(nl);
    assert(string_views(new_content@) =~= string_views(before_nl).push(seq!['\n']));
    let ghost head = string_views(new_content@);
    let mut j: usize = 0;
    while j < former.len()
        invariant
            j <= former@.len(),
            string_views(new_content@) == head + string_views(former@).take(j as int),
        decreases former@.len() - j,
    {
        let ghost old_new = new_content@;
        let item = former[j].clone();
        assert(item@ == former@[j as int]@);
        new_content.push(item);
        assert(new_content@ == old_new.push(item));
        assert(string_views(new_content@) =~= string_views(old_new).push(item@));
        assert(string_views(former@).take(j + 1) =~= string_views(former@).take(j as int).push(
            former@[j as int]@,
        ));
        assert(string_views(new_content@) =~= head + string_views(former@).take(j + 1));
        j = j + 1;
    }
    assert(string_views(former@).take(former@.len() as int) =~= string_views(former@));
    let out = write_vec_string_in_file("", &new_content);
    proof {
        reveal_strlit("");
        lemma_lines_of(existing@);
        lemma_kept_all(string_views(new_content@));
        let c = string_views(content@);
        assert(head =~= c.push(seq!['\n']));
        lemma_flatten_concat(head, lines_of(existing@));
        assert(c.push(seq!['\n']).drop_last() =~= c);
        assert(Seq::<char>::empty() + (c.flatten_alt() + seq!['\n'] + existing@).push('\n')
            =~= c.flatten_alt() + seq!['\n'] + existing@ + seq!['\n']);
    }
    out
}


/// A file that has been read: its path and its text.
pub struct FileEntry {
    /// The path under which the file was asked for.
    pub path: String,
    /// Its whole text.
    pub text: String,
}

/// The files that were read before a bundling step, so that the step itself
/// works on text alone.  A file that could not be read is not in the set.
pub struct FileSet {
    /// The files, looked up by path; the first entry of a path counts.
    pub entries: Vec<FileEntry>,
}

/// The text of the first entry with path `path`, if there is one.
pub open spec fn lookup(entries: Seq<FileEntry>, path: Seq<char>) -> Option<Seq<char>>
    decreases entries.len(),
{
    if entries.len() == 0 {
        None
    } else if entries[0].path@ == path {
        Some(entries[0].text@)
    } else {
        lookup(entries.skip(1), path)
    }
}

impl FileSet {
    /// The text of the file with path `path`, if it was read.
    pub fn read(&self, path: &str) -> (text: Option<String>)
        ensures
            match text {
                Some(t) => lookup(self.entries@, path@) == Some(t@),
                None => lookup(self.entries@, path@) is None,
            },
    {
        let p = path.to_owned();
        let mut i: usize = 0;
        assert(self.entries@.skip(0) =~= self.entries@);
        while i < self.entries.len()
            invariant
                i <= self.entries@.len(),
                p@ == path@,
                lookup(self.entries@, path@) == lookup(self.entries@.skip(i as int), path@),
            decreases self.entries@.len() - i,
        {
            let ghost rest = self.entries@.skip(i as int);
            assert(rest[0] == self.entries@[i as int]);
            assert(rest.skip(1) =~= self.entries@.skip(i + 1));
            if self.entries[i].path == p {
                return Some(self.entries[i].text.clone());
            }
            i = i + 1;
        }
        None
    }
}


/// Whether `c` is an ASCII letter or digit.
pub open spec fn is_ascii_alphanumeric(c: char) -> bool {
    ('a' <= c && c <= 'z') || ('A' <= c && c <= 'Z') || ('0' <= c && c <= '9')
}

/// Trusted: `rand::thread_rng().sample_iter(&Alphanumeric)` yields bytes
/// drawn from the ASCII letters and digits (as the `Alphanumeric`
/// distribution of `rand` documents and implements); the first `len` of them
/// are taken as characters.  Which characters come out is left open.
#[verifier::external_body]
fn sample_alphanumeric(len: usize) -> (s: String)
    ensures
        s@.len() == len,
        forall|k: int| 0 <= k < len ==> is_ascii_alphanumeric(#[trigger] s@[k]),
{
    rand::Rng::sample_iter(rand::thread_rng(), &rand::distributions::Alphanumeric).take(len).map(
        char::from,
    ).collect()
}

/// A random name of `len` ASCII letters and digits.
pub fn random_name(len: usize) -> (s: String)
    ensures
        s@.len() == len,
        forall|k: int| 0 <= k < len ==> is_ascii_alphanumeric(#[trigger] s@[k]),
{
    sample_alphanumeric(len)
}

} // verus!
