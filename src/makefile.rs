use vstd::prelude::*;

use crate::text::{chars_of, string_of};

verus! {

/// Why a line is not a target declaration.
#[derive(Debug, Clone, Copy, PartialEq, Eq, Structural)]
pub enum NotATarget {
    /// The line holds no colon at all.
    NoColon,
    /// The text before the first colon is not a space-separated list of names.
    NotTargetList,
    /// The first colon begins `:=` or `::=`: a variable assignment.
    Assignment,
}

/// A character that may open a target name: an ASCII letter or digit.
pub open spec fn is_name_start(c: char) -> bool {
    ('a' <= c && c <= 'z') || ('A' <= c && c <= 'Z') || ('0' <= c && c <= '9')
}

/// A character that may continue a target name.
pub open spec fn is_name_char(c: char) -> bool {
    is_name_start(c) || c == '_' || c == '.'
}

/// A target name: a letter or digit, then letters, digits, `_` or `.`.
pub open spec fn is_name(s: Seq<char>) -> bool {
    &&& s.len() > 0
    &&& is_name_start(s[0])
    &&& forall|i: int| 1 <= i < s.len() ==> is_name_char(#[trigger] s[i])
}

/// The index of the first `c` in `s` at or after `i`, or `s.len()` if there is none.
pub open spec fn find_from(s: Seq<char>, c: char, i: nat) -> nat
    decreases s.len() - i,
{
    if i >= s.len() {
        s.len()
    } else if s[i as int] == c {
        i
    } else {
        find_from(s, c, i + 1)
    }
}

/// The index just past the word of `s` that starts at `i`: the next space, or the end.
pub open spec fn word_end(s: Seq<char>, i: nat) -> nat
    decreases s.len() - i,
{
    if i >= s.len() || s[i as int] == ' ' {
        i
    } else {
        word_end(s, i + 1)
    }
}

/// The maximal runs of non-space characters of `s` from index `i` on, in order.
pub open spec fn words_from(s: Seq<char>, i: nat) -> Seq<Seq<char>>
    decreases s.len() - i,
{
    if i >= s.len() {
        seq![]
    } else if s[i as int] == ' ' {
        words_from(s, i + 1)
    } else {
        let j = word_end(s, i);
        if i < j <= s.len() {
            seq![s.subrange(i as int, j as int)] + words_from(s, j)
        } else {
            seq![]
        }
    }
}

/// The words of `s`, split on runs of spaces.
pub open spec fn words(s: Seq<char>) -> Seq<Seq<char>> {
    words_from(s, 0)
}

/// A list of target names: names separated by one or more spaces, with
/// any number of leading spaces and none at the end.
pub open spec fn is_target_list(h: Seq<char>) -> bool {
    &&& h.len() > 0
    &&& h.last() != ' '
    &&& forall|i: int| 0 <= i < h.len() ==> #[trigger] h[i] == ' ' || is_name_char(h[i])
    &&& forall|i: int|
        0 <= i < h.len() && h[i] != ' ' && (i == 0 || h[i - 1] == ' ') ==> is_name_start(
            #[trigger] h[i],
        )
}

/// What a single line declares: the names before its first colon, when
/// they form a target list and the colon does not begin `:=` or `::=`.
pub open spec fn line_targets(line: Seq<char>) -> Result<Seq<Seq<char>>, NotATarget> {
    let k = find_from(line, ':', 0);
    if k >= line.len() {
        Err(NotATarget::NoColon)
    } else if !is_target_list(line.subrange(0, k as int)) {
        Err(NotATarget::NotTargetList)
    } else if k + 1 < line.len() && line[(k + 1) as int] == '=' {
        Err(NotATarget::Assignment)
    } else if k + 2 < line.len() && line[(k + 1) as int] == ':' && line[(k + 2) as int] == '=' {
        Err(NotATarget::Assignment)
    } else {
        Ok(words(line.subrange(0, k as int)))
    }
}

/// The lines of `s` from index `i` on: the runs between newlines, the last
/// one ending at the end of `s` (a final newline opens no further line).
pub open spec fn lines_from(s: Seq<char>, i: nat) -> Seq<Seq<char>>
    decreases s.len() - i,
{
    if i >= s.len() {
        seq![]
    } else {
        let j = find_from(s, '\n', i);
        if j >= s.len() {
            seq![s.subrange(i as int, s.len() as int)]
        } else if i <= j {
            seq![s.subrange(i as int, j as int)] + lines_from(s, j + 1)
        } else {
            seq![]
        }
    }
}

/// The lines of `s`.
pub open spec fn lines(s: Seq<char>) -> Seq<Seq<char>> {
    lines_from(s, 0)
}

/// A name shown to users: one that does not begin with `_`, the mark of an
/// internal guard target.
pub open spec fn is_visible(t: Seq<char>) -> bool {
    !(t.len() > 0 && t[0] == '_')
}

/// The visible names of `ts`, in order.
pub open spec fn visible(ts: Seq<Seq<char>>) -> Seq<Seq<char>> {
    ts.filter(|t: Seq<char>| is_visible(t))
}

/// The visible names that a line declares; none when it is no target line.
pub open spec fn declared(line: Seq<char>) -> Seq<Seq<char>> {
    match line_targets(line) {
        Ok(ts) => visible(ts),
        Err(_) => seq![],
    }
}

/// The visible names that the lines `ls` declare, line after line.
pub open spec fn declared_in(ls: Seq<Seq<char>>) -> Seq<Seq<char>>
    decreases ls.len(),
{
    if ls.len() == 0 {
        seq![]
    } else {
        declared_in(ls.drop_last()) + declared(ls.last())
    }
}

/// The visible target names declared in a whole file, in file order.
pub open spec fn file_targets(content: Seq<char>) -> Seq<Seq<char>> {
    declared_in(lines(content))
}


proof fn lemma_find_from_hits(s: Seq<char>, c: char, i: nat, k: nat)
    requires
        i <= k < s.len(),
        s[k as int] == c,
        forall|j: int| i <= j < k ==> s[j] != c,
    ensures
        find_from(s, c, i) == k,
    decreases k - i,
{
    if i < k {
        lemma_find_from_hits(s, c, i + 1, k);
    }
}

proof fn lemma_word_end_of_name(s: Seq<char>, i: nat)
    requires
        i <= s.len(),
        forall|j: int| i <= j < s.len() ==> s[j] != ' ',
    ensures
        word_end(s, i) == s.len(),
    decreases s.len() - i,
{
    if i < s.len() {
        lemma_word_end_of_name(s, i + 1);
    }
}

/// A single target name followed by a colon declares exactly that name.
pub proof fn lemma_single_name_declares_itself(s: Seq<char>)
    requires
        is_name(s),
    ensures
        line_targets(s.push(':')) == Ok::<Seq<Seq<char>>, NotATarget>(seq![s]),
{
    let line = s.push(':');
    let k = s.len();
    assert forall|j: int| 0 <= j < k implies line[j] != ':' && line[j] != ' ' by {
        assert(line[j] == s[j]);
        if j > 0 {
            assert(is_name_char(s[j]));
        }
    }
    lemma_find_from_hits(line, ':', 0, k);
    let h = line.subrange(0, k as int);
    assert(h =~= s);
    assert(is_target_list(h)) by {
        assert forall|i: int| 0 <= i < h.len() implies #[trigger] h[i] == ' ' || is_name_char(
            h[i],
        ) by {
            if i > 0 {
                assert(is_name_char(s[i]));
            }
        }
        assert(h.last() == s[k - 1]);
        if k > 1 {
            assert(is_name_char(s[k - 1]));
        }
    }
    lemma_word_end_of_name(h, 0);
    assert(h.subrange(0, k as int) =~= s);
    assert(h[0] != ' ');
    assert(words_from(h, k) == Seq::<Seq<char>>::empty());
    assert(words_from(h, 0) == seq![h.subrange(0, k as int)] + words_from(h, k));
    assert(words(h) =~= seq![s]);
}

proof fn lemma_find_from_miss(s: Seq<char>, c: char, i: nat)
    requires
        i <= s.len(),
        forall|j: int| i <= j < s.len() ==> s[j] != c,
    ensures
        find_from(s, c, i) == s.len(),
    decreases s.len() - i,
{
    if i < s.len() {
        lemma_find_from_miss(s, c, i + 1);
    }
}

/// A file whose only content is a target name followed by a colon yields
/// exactly that name.
pub proof fn lemma_single_name_file(s: Seq<char>)
    requires
        is_name(s),
    ensures
        file_targets(s.push(':')) == seq![s],
{
    let line = s.push(':');
    lemma_single_name_declares_itself(s);
    assert forall|j: int| 0 <= j < line.len() implies line[j] != '\n' by {
        if j < s.len() {
            assert(line[j] == s[j]);
            if j > 0 {
                assert(is_name_char(s[j]));
            }
        }
    }
    lemma_find_from_miss(line, '\n', 0);
    assert(line.subrange(0, line.len() as int) =~= line);
    assert(lines(line) == seq![line]);
    assert(seq![line].drop_last() =~= Seq::<Seq<char>>::empty());
    lemma_visible_single(s);
    assert(declared(line) == seq![s]);
    assert(declared_in(seq![line]) == declared_in(Seq::<Seq<char>>::empty()) + seq![s]);
    assert(declared_in(seq![line]) =~= seq![s]);
}

proof fn lemma_visible_single(s: Seq<char>)
    requires
        is_visible(s),
    ensures
        visible(seq![s]) == seq![s],
{
    reveal(Seq::filter);
    let one = seq![s];
    assert(one.drop_last() =~= Seq::<Seq<char>>::empty());
    assert(one.drop_last().filter(|t: Seq<char>| is_visible(t)) =~= Seq::<Seq<char>>::empty());
    assert(visible(one) =~= Seq::<Seq<char>>::empty().push(s));
    assert(visible(one) =~= one);
}


/// Every name that a file declares, as extracted, is visible: no name
/// beginning with `_` is ever listed.
pub proof fn lemma_extracted_names_are_visible(content: Seq<char>)
    ensures
        forall|i: int|
            0 <= i < file_targets(content).len() ==> is_visible(
                #[trigger] file_targets(content)[i],
            ),
{
    lemma_declared_in_visible(lines(content));
}

proof fn lemma_declared_in_visible(ls: Seq<Seq<char>>)
    ensures
        forall|i: int| 0 <= i < declared_in(ls).len() ==> is_visible(#[trigger] declared_in(ls)[i]),
    decreases ls.len(),
{
    broadcast use vstd::seq_lib::group_filter_ensures;

    if ls.len() > 0 {
        lemma_declared_in_visible(ls.drop_last());
        let a = declared_in(ls.drop_last());
        let b = declared(ls.last());
        assert forall|i: int| 0 <= i < declared_in(ls).len() implies is_visible(
            #[trigger] declared_in(ls)[i],
        ) by {
            if i >= a.len() {
                assert(declared_in(ls)[i] == b[i - a.len()]);
            } else {
                assert(declared_in(ls)[i] == a[i]);
            }
        }
    }
}

fn name_start(c: char) -> (r: bool)
    ensures
        r == is_name_start(c),
{
    ('a' <= c && c <= 'z') || ('A' <= c && c <= 'Z') || ('0' <= c && c <= '9')
}

fn name_char(c: char) -> (r: bool)
    ensures
        r == is_name_char(c),
{
    name_start(c) || c == '_' || c == '.'
}


/// The names of a parse result, as character sequences.
pub open spec fn targets_view(r: Result<Vec<String>, NotATarget>) -> Result<
    Seq<Seq<char>>,
    NotATarget,
> {
    match r {
        Ok(v) => Ok(v.deep_view()),
        Err(e) => Err(e),
    }
}

/// Whether `line[0..k]` is a target list.
fn is_target_list_prefix(line: &Vec<char>, k: usize) -> (r: bool)
    requires
        k <= line@.len(),
    ensures
        r == is_target_list(line@.subrange(0, k as int)),
{
    let ghost h = line@.subrange(0, k as int);
    if k == 0 {
        return false;
    }
    if line[k - 1] == ' ' {
        assert(h.last() == line@[k - 1]);
        return false;
    }
    let mut i: usize = 0;
    while i < k
        invariant
            0 < k <= line@.len(),
            i <= k,
            h == line@.subrange(0, k as int),
            h.last() != ' ',
            forall|j: int| 0 <= j < i ==> #[trigger] h[j] == ' ' || is_name_char(h[j]),
            forall|j: int|
                0 <= j < i && h[j] != ' ' && (j == 0 || h[j - 1] == ' ') ==> is_name_start(
                    #[trigger] h[j],
                ),
        decreases k - i,
    {
        let c = line[i];
        assert(h[i as int] == c);
        if c != ' ' {
            if !name_char(c) {
                return false;
            }
            if i == 0 || line[i - 1] == ' ' {
                if i > 0 {
                    assert(h[i - 1] == line@[i - 1]);
                }
                if !name_start(c) {
                    return false;
                }
            }
        }
        i = i + 1;
    }
    true
}

/// The words of `line[0..k]`.
fn split_words(line: &Vec<char>, k: usize) -> (r: Vec<String>)
    requires
        k <= line@.len(),
    ensures
        r.deep_view() == words(line@.subrange(0, k as int)),
{
    let ghost h = line@.subrange(0, k as int);
    let mut r: Vec<String> = Vec::new();
    let mut i: usize = 0;
    assert(r.deep_view() + words_from(h, 0) =~= words(h));
    while i < k
        invariant
            i <= k <= line@.len(),
            h == line@.subrange(0, k as int),
            words(h) == r.deep_view() + words_from(h, i as nat),
        decreases k - i,
    {
        if line[i] == ' ' {
            assert(h[i as int] == ' ');
            i = i + 1;
        } else {
            assert(h[i as int] != ' ');
            let mut j: usize = i;
            while j < k && line[j] != ' '
                invariant
                    i <= j <= k <= line@.len(),
                    h == line@.subrange(0, k as int),
                    word_end(h, i as nat) == word_end(h, j as nat),
                decreases k - j,
            {
                assert(h[j as int] != ' ');
                j = j + 1;
            }
            assert(word_end(h, j as nat) == j);
            let w = string_of(line, i, j);
            assert(w@ =~= h.subrange(i as int, j as int));
            let ghost before = r.deep_view();
            r.push(w);
            assert(r.deep_view() =~= before.push(w@));
            assert(words_from(h, i as nat) == seq![w@] + words_from(h, j as nat));
            assert(words(h) =~= r.deep_view() + words_from(h, j as nat));
            i = j;
        }
    }
    assert(r.deep_view() =~= words(h));
    r
}

/// Parses a line held as characters.
fn parse_chars(line: &Vec<char>) -> (r: Result<Vec<String>, NotATarget>)
    ensures
        targets_view(r) == line_targets(line@),
{
    let n = line.len();
    let mut k: usize = 0;
    while k < n && line[k] != ':'
        invariant
            k <= n,
            n == line@.len(),
            find_from(line@, ':', k as nat) == find_from(line@, ':', 0),
        decreases n - k,
    {
        k = k + 1;
    }
    assert(find_from(line@, ':', k as nat) == k);
    if k == n {
        return Err(NotATarget::NoColon);
    }
    if !is_target_list_prefix(line, k) {
        return Err(NotATarget::NotTargetList);
    }
    if k + 1 < n && line[k + 1] == '=' {
        return Err(NotATarget::Assignment);
    }
    if n - k > 2 && line[k + 1] == ':' && line[k + 2] == '=' {
        return Err(NotATarget::Assignment);
    }
    Ok(split_words(line, k))
}

/// Parses one line of a recipe file: the target names it declares, or
/// why it declares none.
pub fn parse_target_line(line: &str) -> (r: Result<Vec<String>, NotATarget>)
    ensures
        targets_view(r) == line_targets(line@),
{
    let cs = chars_of(line);
    parse_chars(&cs)
}


/// Whether a name is shown to users.
fn visible_name(t: &String) -> (r: bool)
    ensures
        r == is_visible(t@),
{
    let ts = t.as_str();
    if ts.is_empty() {
        true
    } else {
        ts.get_char(0) != '_'
    }
}

/// Appends the visible names of `ts` to `out`, in order.
fn push_visible(out: &mut Vec<String>, ts: &Vec<String>)
    ensures
        final(out).deep_view() == old(out).deep_view() + visible(ts.deep_view()),
{
    let ghost start = out.deep_view();
    let ghost all = ts.deep_view();
    for i in 0..ts.len()
        invariant
            all == ts.deep_view(),
            out.deep_view() == start + visible(all.take(i as int)),
    {
        let ghost prev = out.deep_view();
        proof {
            reveal(Seq::filter);
            assert(all.take(i + 1).drop_last() =~= all.take(i as int));
            assert(all.take(i + 1).last() == ts[i as int]@);
        }
        if visible_name(&ts[i]) {
            out.push(ts[i].clone());
            assert(out.deep_view() =~= prev.push(ts[i as int]@));
            assert(visible(all.take(i + 1)) == visible(all.take(i as int)).push(ts[i as int]@));
            assert(out.deep_view() =~= start + visible(all.take(i + 1)));
        } else {
            assert(visible(all.take(i + 1)) == visible(all.take(i as int)));
        }
    }
    assert(all.take(ts.len() as int) =~= all);
}

/// Appends to `out` the visible names that the line `line` declares.
fn collect_line(out: &mut Vec<String>, line: &Vec<char>)
    ensures
        final(out).deep_view() == old(out).deep_view() + declared(line@),
{
    match parse_chars(line) {
        Ok(ts) => push_visible(out, &ts),
        Err(_) => {
            assert(old(out).deep_view() + declared(line@) =~= old(out).deep_view());
        },
    }
}

/// The target names that a recipe file declares, line by line in file
/// order, duplicates kept; names beginning with `_` are left out.
pub fn extract_targets(content: &str) -> (r: Vec<String>)
    ensures
        r.deep_view() == file_targets(content@),
{
    let cs = chars_of(content);
    let n = cs.len();
    let ghost s = cs@;
    let mut out: Vec<String> = Vec::new();
    let mut buf: Vec<char> = Vec::new();
    let mut start: usize = 0;
    let mut i: usize = 0;
    let ghost mut done: Seq<Seq<char>> = seq![];
    assert(out.deep_view() =~= declared_in(done));
    while i < n
        invariant
            s == cs@,
            s == content@,
            n == s.len(),
            start <= i <= n,
            buf@ == s.subrange(start as int, i as int),
            find_from(s, '\n', start as nat) == find_from(s, '\n', i as nat),
            lines(s) == done + lines_from(s, start as nat),
            out.deep_view() == declared_in(done),
        decreases n - i,
    {
        let c = cs[i];
        if c == '\n' {
            assert(find_from(s, '\n', i as nat) == i);
            assert(lines_from(s, start as nat) == seq![buf@] + lines_from(s, (i + 1) as nat));
            collect_line(&mut out, &buf);
            proof {
                assert(done.push(buf@).drop_last() =~= done);
                assert(lines(s) =~= done.push(buf@) + lines_from(s, (i + 1) as nat));
                done = done.push(buf@);
            }
            buf = Vec::new();
            i = i + 1;
            start = i;
            assert(buf@ =~= s.subrange(start as int, i as int));
        } else {
            buf.push(c);
            i = i + 1;
            assert(buf@ =~= s.subrange(start as int, i as int));
        }
    }
    if start < n {
        assert(find_from(s, '\n', n as nat) == n);
        assert(lines_from(s, start as nat) == seq![buf@]);
        collect_line(&mut out, &buf);
        proof {
            assert(done.push(buf@).drop_last() =~= done);
            assert(lines(s) =~= done.push(buf@));
        }
    } else {
        assert(lines(s) =~= done);
    }
    out
}

} // verus!
