//! Text as the driver reads it: trimming, prefixes, pieces, words and lines.

use vstd::prelude::*;

verus! {

/// The outcome of a fallible step with its message taken as characters.
pub open spec fn shown<T>(r: Result<T, String>) -> Result<T, Seq<char>> {
    match r {
        Ok(v) => Ok(v),
        Err(e) => Err(e@),
    }
}

/// Unicode's `White_Space` property.
pub open spec fn white_space(c: char) -> bool {
    let n = c as u32;
    ||| 0x9 <= n <= 0xD
    ||| n == 0x20
    ||| n == 0x85
    ||| n == 0xA0
    ||| n == 0x1680
    ||| 0x2000 <= n <= 0x200A
    ||| n == 0x2028
    ||| n == 0x2029
    ||| n == 0x202F
    ||| n == 0x205F
    ||| n == 0x3000
}

/// Whether `c` is white space.
pub fn is_white_space(c: char) -> (r: bool)
    ensures
        r == white_space(c),
{
    let n: u32 = c as u32;
    (0x9 <= n && n <= 0xD) || n == 0x20 || n == 0x85 || n == 0xA0 || n == 0x1680 || (0x2000 <= n
        && n <= 0x200A) || n == 0x2028 || n == 0x2029 || n == 0x202F || n == 0x205F || n == 0x3000
}

/// The characters of `s`, one by one.
pub fn chars_of(s: &str) -> (v: Vec<char>)
    ensures
        v@ == s@,
{
    let mut v: Vec<char> = Vec::new();
    for c in it: s.chars()
        invariant
            v@ == it.seq().take(it.index() as int),
            it.seq() == s@,
    {
        v.push(c);
        assert(it.seq().take(it.index() + 1) =~= it.seq().take(it.index() as int).push(c));
    }
    v
}

/// Whether two texts are the same.
pub fn same(a: &str, b: &str) -> (r: bool)
    ensures
        r == (a@ == b@),
{
    a.to_owned() == b.to_owned()
}

/// `s` without its leading white space.
pub open spec fn trimmed_start(s: Seq<char>) -> Seq<char>
    decreases s.len(),
{
    if s.len() > 0 && white_space(s.first()) {
        trimmed_start(s.drop_first())
    } else {
        s
    }
}

/// `s` without its trailing white space.
pub open spec fn trimmed_end(s: Seq<char>) -> Seq<char>
    decreases s.len(),
{
    if s.len() > 0 && white_space(s.last()) {
        trimmed_end(s.drop_last())
    } else {
        s
    }
}

/// `s` without the white space at either end.
pub open spec fn trimmed(s: Seq<char>) -> Seq<char> {
    trimmed_end(trimmed_start(s))
}

/// `s` without the white space at either end.
pub fn trim<'a>(s: &'a str) -> (r: &'a str)
    ensures
        r@ == trimmed(s@),
{
    let v: Vec<char> = chars_of(s);
    let mut i: usize = 0;
    assert(v@.skip(0) =~= v@);
    while i < v.len() && is_white_space(v[i])
        invariant
            i <= v.len(),
            v@ == s@,
            trimmed_start(v@.skip(i as int)) == trimmed_start(v@),
        decreases v.len() - i,
    {
        assert(v@.skip(i as int).drop_first() =~= v@.skip(i + 1));
        i = i + 1;
    }
    let ghost rest = v@.skip(i as int);
    let mut j: usize = v.len();
    assert(v@.subrange(i as int, j as int) =~= rest);
    while j > i && is_white_space(v[j - 1])
        invariant
            i <= j <= v.len(),
            v@ == s@,
            rest == v@.skip(i as int),
            trimmed_end(v@.subrange(i as int, j as int)) == trimmed_end(rest),
        decreases j,
    {
        assert(v@.subrange(i as int, j as int).drop_last() =~= v@.subrange(i as int, j - 1));
        j = j - 1;
    }
    s.substring_char(i, j)
}

/// `s` with every leading repetition of `prefix` taken off.
pub open spec fn without_leading(s: Seq<char>, prefix: Seq<char>) -> Seq<char>
    decreases s.len(),
{
    if prefix.len() > 0 && prefix.is_prefix_of(s) {
        without_leading(s.skip(prefix.len() as int), prefix)
    } else {
        s
    }
}

/// Whether `prefix` stands in `v` at `at`.
fn stands_at(v: &Vec<char>, at: usize, prefix: &Vec<char>) -> (r: bool)
    requires
        at <= v.len(),
    ensures
        r == prefix@.is_prefix_of(v@.skip(at as int)),
{
    if v.len() - at < prefix.len() {
        return false;
    }
    let mut i: usize = 0;
    while i < prefix.len()
        invariant
            i <= prefix.len() <= v.len() - at,
            forall|j: int| 0 <= j < i ==> v@[at + j] == prefix@[j],
        decreases prefix.len() - i,
    {
        if v[at + i] != prefix[i] {
            assert(v@.skip(at as int)[i as int] != prefix@[i as int]);
            return false;
        }
        i = i + 1;
    }
    assert(prefix@ =~= v@.skip(at as int).subrange(0, prefix@.len() as int));
    true
}

/// `s` with every leading repetition of `prefix` taken off.
pub fn strip_leading<'a>(s: &'a str, prefix: &str) -> (r: &'a str)
    ensures
        r@ == without_leading(s@, prefix@),
{
    let v: Vec<char> = chars_of(s);
    let p: Vec<char> = chars_of(prefix);
    let mut i: usize = 0;
    assert(v@.skip(0) =~= v@);
    while p.len() > 0 && stands_at(&v, i, &p)
        invariant
            i <= v.len(),
            v@ == s@,
            p@ == prefix@,
            without_leading(v@.skip(i as int), p@) == without_leading(v@, p@),
        decreases v.len() - i,
    {
        assert(v@.skip(i as int).skip(p@.len() as int) =~= v@.skip(i + p@.len()));
        i = i + p.len();
    }
    let r: &'a str = s.substring_char(i, v.len());
    assert(r@ =~= v@.skip(i as int));
    r
}

/// What follows `prefix` in `s`, if `s` starts with it.
pub open spec fn after_prefix(s: Seq<char>, prefix: Seq<char>) -> Option<Seq<char>> {
    if prefix.is_prefix_of(s) {
        Some(s.skip(prefix.len() as int))
    } else {
        None
    }
}

/// What follows `prefix` in `s`, if `s` starts with it.
pub fn strip_prefix<'a>(s: &'a str, prefix: &str) -> (r: Option<&'a str>)
    ensures
        match r {
            Some(t) => after_prefix(s@, prefix@) == Some(t@),
            None => after_prefix(s@, prefix@) is None,
        },
{
    let v: Vec<char> = chars_of(s);
    let p: Vec<char> = chars_of(prefix);
    assert(v@.skip(0) =~= v@);
    if stands_at(&v, 0, &p) {
        let t: &'a str = s.substring_char(p.len(), v.len());
        assert(t@ =~= v@.skip(p@.len() as int));
        Some(t)
    } else {
        None
    }
}

/// The text of each string.
pub open spec fn texts(v: Seq<String>) -> Seq<Seq<char>> {
    v.map_values(|t: String| t@)
}

/// `String::push` appends one character at the end.
pub assume_specification[ String::push ](s: &mut String, c: char)
    ensures
        final(s)@ == old(s)@.push(c),
;

/// Where a text is cut into pieces.
#[derive(Clone, Copy, PartialEq, Eq, Structural)]
pub enum Cut {
    /// At every occurrence of one character.
    At(char),
    /// At every white-space character.
    Blank,
}

/// Whether `c` ends a piece.
pub open spec fn cuts(cut: Cut, c: char) -> bool {
    match cut {
        Cut::At(sep) => c == sep,
        Cut::Blank => white_space(c),
    }
}

/// The pieces between the cuts, in order; one more than there are cuts.
pub open spec fn pieces(s: Seq<char>, cut: Cut) -> Seq<Seq<char>>
    decreases s.len(),
{
    if s.len() == 0 {
        seq![Seq::empty()]
    } else {
        let before = pieces(s.drop_last(), cut);
        if cuts(cut, s.last()) {
            before.push(Seq::empty())
        } else {
            before.drop_last().push(before.last().push(s.last()))
        }
    }
}

/// There is always at least one piece.
pub proof fn lemma_pieces_nonempty(s: Seq<char>, cut: Cut)
    ensures
        pieces(s, cut).len() > 0,
    decreases s.len(),
{
    if s.len() > 0 {
        lemma_pieces_nonempty(s.drop_last(), cut);
    }
}

/// Characters that cut nothing make the last piece longer.
pub proof fn lemma_pieces_extend(s: Seq<char>, t: Seq<char>, sep: char)
    requires
        forall|i: int| 0 <= i < t.len() ==> t[i] != sep,
    ensures
        pieces(s + t, Cut::At(sep)) == pieces(s, Cut::At(sep)).drop_last().push(
            pieces(s, Cut::At(sep)).last() + t,
        ),
    decreases t.len(),
{
    let all = pieces(s, Cut::At(sep));
    lemma_pieces_nonempty(s, Cut::At(sep));
    if t.len() == 0 {
        assert(s + t =~= s);
        assert(all.last() + t =~= all.last());
        assert(all.drop_last().push(all.last()) =~= all);
    } else {
        lemma_pieces_extend(s, t.drop_last(), sep);
        assert((s + t).drop_last() =~= s + t.drop_last());
        let before = all.drop_last().push(all.last() + t.drop_last());
        assert(before.drop_last() =~= all.drop_last());
        assert((all.last() + t.drop_last()).push(t.last()) =~= all.last() + t);
    }
}

/// The pieces of `s` between the cuts.
pub fn split(s: &str, cut: Cut) -> (r: Vec<String>)
    ensures
        texts(r@) == pieces(s@, cut),
        r@.len() > 0,
{
    let v: Vec<char> = chars_of(s);
    let mut done: Vec<String> = Vec::new();
    let mut open: String = String::new();
    let mut i: usize = 0;
    assert(v@.take(0) =~= Seq::<char>::empty());
    assert(texts(done@).push(open@) =~= pieces(v@.take(0), cut));
    while i < v.len()
        invariant
            i <= v.len(),
            v@ == s@,
            texts(done@).push(open@) == pieces(v@.take(i as int), cut),
        decreases v.len() - i,
    {
        let c: char = v[i];
        let ends: bool = match cut {
            Cut::At(sep) => c == sep,
            Cut::Blank => is_white_space(c),
        };
        let ghost before = texts(done@).push(open@);
        assert(v@.take(i + 1).drop_last() =~= v@.take(i as int));
        if ends {
            done.push(open);
            open = String::new();
            assert(texts(done@) =~= before);
        } else {
            open.push(c);
            assert(texts(done@) =~= before.drop_last());
        }
        i = i + 1;
    }
    assert(v@.take(v@.len() as int) =~= v@);
    let ghost was = done@;
    let ghost last = open@;
    done.push(open);
    assert(texts(done@) =~= texts(was).push(last));
    done
}

/// The runs of characters that are not white space.
pub open spec fn words(s: Seq<char>) -> Seq<Seq<char>> {
    pieces(s, Cut::Blank).filter(|w: Seq<char>| w.len() > 0)
}

/// The runs of characters that are not white space.
pub fn split_words(s: &str) -> (r: Vec<String>)
    ensures
        texts(r@) == words(s@),
{
    let all: Vec<String> = split(s, Cut::Blank);
    let mut r: Vec<String> = Vec::new();
    let mut i: usize = 0;
    let ghost kept = |w: Seq<char>| w.len() > 0;
    assert(texts(all@).take(0).filter(kept) =~= Seq::empty()) by {
        reveal(Seq::filter);
    }
    assert(texts(r@) =~= Seq::empty());
    while i < all.len()
        invariant
            i <= all.len(),
            kept == (|w: Seq<char>| w.len() > 0),
            texts(r@) == texts(all@).take(i as int).filter(kept),
        decreases all.len() - i,
    {
        let ghost ts = texts(all@);
        assert(ts.take(i + 1).drop_last() =~= ts.take(i as int));
        assert(ts.take(i + 1).filter(kept) == {
            let rest = ts.take(i as int).filter(kept);
            if kept(ts[i as int]) {
                rest.push(ts[i as int])
            } else {
                rest
            }
        }) by {
            reveal(Seq::filter);
        }
        if !all[i].as_str().is_empty() {
            let ghost was = r@;
            r.push(all[i].clone());
            assert(texts(r@) =~= texts(was).push(all@[i as int]@));
        }
        i = i + 1;
    }
    assert(texts(all@).take(all@.len() as int) =~= texts(all@));
    r
}

/// One line without the carriage return that stands before its line feed.
pub open spec fn without_return(line: Seq<char>) -> Seq<char> {
    if line.len() > 0 && line.last() == '\r' {
        line.drop_last()
    } else {
        line
    }
}

/// The lines of `s`, each without its line ending; the ending of the last line is optional.
pub open spec fn lines(s: Seq<char>) -> Seq<Seq<char>> {
    let all = pieces(s, Cut::At('\n'));
    let ended = all.drop_last().map_values(|l: Seq<char>| without_return(l));
    if all.last().len() == 0 {
        ended
    } else {
        ended.push(all.last())
    }
}

/// The lines of `s`, each without its line ending.
pub fn split_lines(s: &str) -> (r: Vec<String>)
    ensures
        texts(r@) == lines(s@),
{
    let all: Vec<String> = split(s, Cut::At('\n'));
    let mut r: Vec<String> = Vec::new();
    let mut i: usize = 0;
    let ghost ts = texts(all@);
    let ghost ended = ts.drop_last().map_values(|l: Seq<char>| without_return(l));
    while i < all.len() - 1
        invariant
            i <= all.len() - 1,
            ts == texts(all@),
            ended == ts.drop_last().map_values(|l: Seq<char>| without_return(l)),
            texts(r@) =~= ended.take(i as int),
        decreases all.len() - i,
    {
        let line: Vec<char> = chars_of(all[i].as_str());
        let ghost was = r@;
        assert(ts[i as int] == line@);
        if line.len() > 0 && line[line.len() - 1] == '\r' {
            let kept: &str = all[i].as_str().substring_char(0, line.len() - 1);
            assert(kept@ =~= line@.drop_last());
            r.push(kept.to_owned());
        } else {
            r.push(all[i].clone());
        }
        assert(texts(r@) =~= texts(was).push(without_return(line@)));
        i = i + 1;
    }
    let last: &String = &all[all.len() - 1];
    assert(ts.last() == last@);
    assert(ended.take(i as int) =~= ended);
    if !last.as_str().is_empty() {
        let ghost was = r@;
        r.push(last.clone());
        assert(texts(r@) =~= texts(was).push(last@));
    }
    r
}

/// Text between white space is what trimming leaves: white space at either end goes, and nothing
/// else does.
pub proof fn law_trim_takes_the_blanks(front: Seq<char>, t: Seq<char>, back: Seq<char>)
    requires
        forall|i: int| 0 <= i < front.len() ==> white_space(#[trigger] front[i]),
        forall|i: int| 0 <= i < back.len() ==> white_space(#[trigger] back[i]),
        t.len() > 0 ==> !white_space(t.first()) && !white_space(t.last()),
    ensures
        trimmed(front + t + back) == t,
{
    let s = front + t + back;
    lemma_start_trimmed(front, t + back);
    assert(s =~= front + (t + back));
    if t.len() > 0 {
        assert((t + back).first() == t.first());
        lemma_end_trimmed(t, back);
    } else {
        assert(t + back =~= back);
        lemma_start_trimmed(back, t);
        assert(back + t =~= back);
        assert(t =~= Seq::<char>::empty());
        assert(trimmed_start(t) == t);
    }
}

proof fn lemma_start_trimmed(front: Seq<char>, t: Seq<char>)
    requires
        forall|i: int| 0 <= i < front.len() ==> white_space(#[trigger] front[i]),
    ensures
        trimmed_start(front + t) == trimmed_start(t),
    decreases front.len(),
{
    if front.len() > 0 {
        let rest = front.drop_first();
        assert forall|i: int| 0 <= i < rest.len() implies white_space(#[trigger] rest[i]) by {
            assert(rest[i] == front[i + 1]);
        }
        lemma_start_trimmed(rest, t);
        assert((front + t).first() == front[0]);
        assert((front + t).drop_first() =~= rest + t);
    } else {
        assert(front + t =~= t);
    }
}

proof fn lemma_end_trimmed(t: Seq<char>, back: Seq<char>)
    requires
        forall|i: int| 0 <= i < back.len() ==> white_space(#[trigger] back[i]),
        t.len() > 0,
        !white_space(t.last()),
    ensures
        trimmed_end(t + back) == t,
    decreases back.len(),
{
    if back.len() > 0 {
        let rest = back.drop_last();
        assert forall|i: int| 0 <= i < rest.len() implies white_space(#[trigger] rest[i]) by {
            assert(rest[i] == back[i]);
        }
        lemma_end_trimmed(t, rest);
        assert((t + back).last() == back.last());
        assert(white_space(back[back.len() - 1]));
        assert((t + back).drop_last() =~= t + rest);
    } else {
        assert(t + back =~= t);
    }
}

/// Among the ASCII characters, the blank, the tabs, and the characters that end a line or a page
/// are white space.
pub proof fn law_ascii_white_space(c: char)
    requires
        (c as u32) < 128,
    ensures
        white_space(c) <==> c == ' ' || c == '\t' || c == '\n' || c == '\r' || c == '\u{b}' || c
            == '\u{c}',
{
}

/// A prefix is taken off as often as it stands in front, and nothing else is.
pub proof fn law_leading_repetitions_go(prefix: Seq<char>, s: Seq<char>)
    requires
        prefix.len() > 0,
    ensures
        without_leading(prefix + s, prefix) == without_leading(s, prefix),
        !prefix.is_prefix_of(s) ==> without_leading(s, prefix) == s,
        !prefix.is_prefix_of(without_leading(s, prefix)),
    decreases s.len(),
{
    assert(prefix.is_prefix_of(prefix + s));
    assert((prefix + s).skip(prefix.len() as int) =~= s);
    if prefix.is_prefix_of(s) {
        law_leading_repetitions_go(prefix, s.skip(prefix.len() as int));
    }
}

/// What follows a prefix is the rest of a text that starts with it, and there is a rest exactly
/// where the text starts with the prefix.
pub proof fn law_prefix_and_rest_make_the_text(prefix: Seq<char>, s: Seq<char>, rest: Seq<char>)
    ensures
        after_prefix(prefix + rest, prefix) == Some(rest),
        after_prefix(s, prefix) == Some(rest) <==> s == prefix + rest,
{
    assert(prefix.is_prefix_of(prefix + rest));
    assert((prefix + rest).skip(prefix.len() as int) =~= rest);
    if after_prefix(s, prefix) == Some(rest) {
        assert(s.take(prefix.len() as int) =~= prefix);
        assert(s =~= s.take(prefix.len() as int) + s.skip(prefix.len() as int));
    }
}

/// A text without a cut is one piece.
pub proof fn lemma_one_piece(t: Seq<char>, cut: Cut)
    requires
        forall|i: int| 0 <= i < t.len() ==> !cuts(cut, #[trigger] t[i]),
    ensures
        pieces(t, cut) == seq![t],
    decreases t.len(),
{
    if t.len() == 0 {
        assert(t =~= Seq::empty());
    } else {
        lemma_one_piece(t.drop_last(), cut);
        assert(!cuts(cut, t[t.len() - 1]));
        assert(seq![t.drop_last()].drop_last() =~= Seq::<Seq<char>>::empty());
        assert(t.drop_last().push(t.last()) =~= t);
        assert(Seq::<Seq<char>>::empty().push(t) =~= seq![t]);
    }
}

/// A text is cut where the cuts stand: what follows a cut, up to the end, is one piece more.
pub proof fn law_pieces_follow_the_cuts(s: Seq<char>, c: char, t: Seq<char>, cut: Cut)
    requires
        cuts(cut, c),
        forall|i: int| 0 <= i < t.len() ==> !cuts(cut, #[trigger] t[i]),
    ensures
        pieces(t, cut) == seq![t],
        pieces(s + seq![c] + t, cut) == pieces(s, cut).push(t),
    decreases t.len(),
{
    lemma_one_piece(t, cut);
    let whole = s + seq![c] + t;
    if t.len() == 0 {
        assert(whole.drop_last() =~= s);
        assert(whole.last() == c);
        assert(t =~= Seq::empty());
    } else {
        law_pieces_follow_the_cuts(s, c, t.drop_last(), cut);
        assert(whole.drop_last() =~= s + seq![c] + t.drop_last());
        assert(whole.last() == t[t.len() - 1]);
        let before = pieces(s, cut).push(t.drop_last());
        assert(before.drop_last() =~= pieces(s, cut));
        assert(t.drop_last().push(t.last()) =~= t);
    }
}

/// Texts with a separator between them.
pub open spec fn joined_by(parts: Seq<Seq<char>>, sep: char) -> Seq<char>
    decreases parts.len(),
{
    if parts.len() == 0 {
        Seq::empty()
    } else if parts.len() == 1 {
        parts[0]
    } else {
        joined_by(parts.drop_last(), sep) + seq![sep] + parts.last()
    }
}

/// The pieces of a text hold no separator, and with the separator between them they are the text
/// again.
pub proof fn law_pieces_join_back(s: Seq<char>, sep: char)
    ensures
        pieces(s, Cut::At(sep)).len() > 0,
        joined_by(pieces(s, Cut::At(sep)), sep) == s,
        forall|i: int|
            0 <= i < pieces(s, Cut::At(sep)).len() ==> !(#[trigger] pieces(
                s,
                Cut::At(sep),
            )[i]).contains(sep),
    decreases s.len(),
{
    let all = pieces(s, Cut::At(sep));
    if s.len() == 0 {
        assert(s =~= Seq::<char>::empty());
    } else {
        let front = pieces(s.drop_last(), Cut::At(sep));
        law_pieces_join_back(s.drop_last(), sep);
        if s.last() == sep {
            assert(all.drop_last() =~= front);
            assert(joined_by(all, sep) =~= s.drop_last().push(sep));
            assert(s.drop_last().push(sep) =~= s);
        } else {
            let last = front.last().push(s.last());
            assert(all.drop_last() =~= front.drop_last());
            assert(all.last() == last);
            if front.len() == 1 {
                assert(joined_by(all, sep) =~= last);
            } else {
                assert(joined_by(all, sep) =~= joined_by(front, sep).push(s.last()));
            }
            assert(s.drop_last().push(s.last()) =~= s);
        }
        assert forall|i: int| 0 <= i < all.len() implies !(#[trigger] all[i]).contains(sep) by {
            if i < front.len() - 1 || s.last() == sep {
                if i < front.len() {
                    assert(all[i] == front[i]);
                }
            } else {
                assert(!front[front.len() - 1].contains(sep));
                if all[i].contains(sep) {
                    let k = choose|k: int| 0 <= k < all[i].len() && all[i][k] == sep;
                    assert(front.last()[k] == sep);
                }
            }
        }
    }
}

/// White space, as much of it as there is, stands between words: a run of other characters after
/// white space is one word more, and white space at the end adds none.
pub proof fn law_words_stand_between_blanks(s: Seq<char>, c: char, t: Seq<char>)
    requires
        white_space(c),
        t.len() > 0,
        forall|i: int| 0 <= i < t.len() ==> !white_space(#[trigger] t[i]),
    ensures
        words(Seq::empty()) == Seq::<Seq<char>>::empty(),
        words(t) == seq![t],
        words(s + seq![c] + t) == words(s).push(t),
        words(s.push(c)) == words(s),
{
    reveal(Seq::filter);
    let cut = Cut::Blank;
    let kept = |w: Seq<char>| w.len() > 0;
    assert forall|i: int| 0 <= i < t.len() implies !cuts(cut, #[trigger] t[i]) by {
        assert(!white_space(t[i]));
    }
    law_pieces_follow_the_cuts(s, c, t, cut);
    let none = Seq::<Seq<char>>::empty();
    let empty = seq![Seq::<char>::empty()];
    assert(empty.drop_last() =~= none);
    assert(none.filter(kept) =~= none);
    assert(empty.filter(kept) =~= none);
    assert(seq![t].drop_last() =~= none);
    assert(seq![t].filter(kept) =~= none.push(t));
    assert(none.push(t) =~= seq![t]);
    let all = pieces(s, cut);
    assert(all.push(t).drop_last() =~= all);
    assert(all.push(t).filter(kept) == all.filter(kept).push(t));
    assert(s.push(c).drop_last() =~= s);
    assert(pieces(s.push(c), cut) == all.push(Seq::empty()));
    assert(all.push(Seq::<char>::empty()).drop_last() =~= all);
    assert(all.push(Seq::<char>::empty()).filter(kept) == all.filter(kept));
}

/// Each line ends at a line feed, with or without a carriage return before it, and the last line
/// may do without: a further line after those that have ended is one line more.
pub proof fn law_lines_end_at_line_feeds(s: Seq<char>, t: Seq<char>)
    requires
        s.len() == 0 || s.last() == '\n',
        forall|i: int| 0 <= i < t.len() ==> #[trigger] t[i] != '\n',
    ensures
        lines(Seq::empty()) == Seq::<Seq<char>>::empty(),
        t.len() == 0 || t.last() != '\r' ==> lines(s + t + seq!['\n']) == lines(s).push(t),
        lines(s + t + seq!['\r', '\n']) == lines(s).push(t),
        t.len() > 0 ==> lines(s + t) == lines(s).push(t),
{
    let cut = Cut::At('\n');
    let all = pieces(s, cut);
    let none = Seq::<char>::empty();
    lemma_pieces_nonempty(s, cut);
    assert(all.last() == none) by {
        if s.len() == 0 {
            assert(all =~= seq![none]);
        }
    }
    assert(pieces(none, cut).drop_last() =~= Seq::<Seq<char>>::empty());
    assert(lines(none) =~= Seq::<Seq<char>>::empty());
    let front = all.drop_last();
    let ended = front.map_values(|l: Seq<char>| without_return(l));
    assert(lines(s) == ended);
    lemma_pieces_extend(s, t, '\n');
    assert(none + t =~= t);
    assert(pieces(s + t, cut) == front.push(t));
    assert(front.push(t).drop_last() =~= front);
    let one = s + t + seq!['\n'];
    assert(one.drop_last() =~= s + t);
    assert(pieces(one, cut) == front.push(t).push(none));
    assert(front.push(t).push(none).drop_last() =~= front.push(t));
    if t.len() == 0 || t.last() != '\r' {
        assert(front.push(t).map_values(|l: Seq<char>| without_return(l)) =~= ended.push(t));
    }
    let returned = t + seq!['\r'];
    assert forall|i: int| 0 <= i < returned.len() implies #[trigger] returned[i] != '\n' by {}
    lemma_pieces_extend(s, returned, '\n');
    assert(none + returned =~= returned);
    let two = s + t + seq!['\r', '\n'];
    assert(two.drop_last() =~= s + returned);
    assert(pieces(two, cut) == front.push(returned).push(none));
    assert(front.push(returned).push(none).drop_last() =~= front.push(returned));
    assert(returned.drop_last() =~= t);
    assert(front.push(returned).map_values(|l: Seq<char>| without_return(l)) =~= ended.push(t));
}

/// An outcome is shown as it is: a success with its value, a failure with its message; and so are
/// the strings of a list, one by one.
pub proof fn law_outcomes_are_shown_as_they_are<T>(v: T, e: String, all: Seq<String>, i: int)
    ensures
        shown(Ok::<T, String>(v)) == Ok::<T, Seq<char>>(v),
        shown(Err::<T, String>(e)) == Err::<T, Seq<char>>(e@),
        texts(all).len() == all.len(),
        0 <= i < all.len() ==> texts(all)[i] == all[i]@,
{
}

} // verus!
