//! What a `copy:` directive does: which files go where, and with which mode and owner.

use vstd::prelude::*;

use crate::number::{
    decimal, digit_value, digits_value, fault_text, law_decimal_reads_back, lemma_octal_reads_back,
    lemma_zeros_in_front, number_value, octal, parse_number, IntFault,
};
use crate::quote::{debug_text, quoted};
use crate::recipe::{CopyDirective, FromSpec};
use crate::text::{
    law_leading_repetitions_go, law_pieces_follow_the_cuts, pieces, same, shown, split,
    strip_leading, texts, without_leading, Cut,
};

verus! {

/// The parts of a path that name something: those between slashes that are neither empty nor a
/// single dot.
pub open spec fn path_parts(path: Seq<char>) -> Seq<Seq<char>> {
    pieces(path, Cut::At('/')).filter(|p: Seq<char>| p.len() > 0 && p != "."@)
}

/// The last part of a path, unless that leads up.
pub open spec fn file_name_of(path: Seq<char>) -> Option<Seq<char>> {
    let parts = path_parts(path);
    if parts.len() == 0 || parts.last() == ".."@ {
        None
    } else {
        Some(parts.last())
    }
}

/// The file name at the end of a path.
pub fn file_name(path: &str) -> (r: Option<String>)
    ensures
        match r {
            Some(name) => file_name_of(path@) == Some(name@),
            None => file_name_of(path@) is None,
        },
{
    let all: Vec<String> = split(path, Cut::At('/'));
    let ghost ts = texts(all@);
    let ghost named = |p: Seq<char>| p.len() > 0 && p != "."@;
    let mut i: usize = all.len();
    assert(ts.take(ts.len() as int) =~= ts);
    while i > 0
        invariant
            i <= all@.len(),
            ts == texts(all@),
            ts == pieces(path@, Cut::At('/')),
            named == (|p: Seq<char>| p.len() > 0 && p != "."@),
            ts.take(i as int).filter(named) == ts.filter(named),
        decreases i,
    {
        i = i - 1;
        let part: &str = all[i].as_str();
        assert(ts[i as int] == part@);
        assert(ts.take(i + 1).drop_last() =~= ts.take(i as int));
        assert(ts.take(i + 1).filter(named) == {
            let front = ts.take(i as int).filter(named);
            if named(ts[i as int]) {
                front.push(ts[i as int])
            } else {
                front
            }
        }) by {
            reveal(Seq::filter);
        }
        if !part.is_empty() && !same(part, ".") {
            if same(part, "..") {
                return None;
            }
            return Some(part.to_owned());
        }
    }
    assert(ts.take(0).filter(named).len() == 0) by {
        reveal(Seq::filter);
    }
    None
}

/// A path inside the root: without the slashes in front.
pub open spec fn inside(path: Seq<char>) -> Seq<char> {
    without_leading(path, "/"@)
}

/// A path inside the root: without the slashes in front.
pub fn inside_root(path: &str) -> (r: String)
    ensures
        r@ == inside(path@),
{
    strip_leading(path, "/").to_owned()
}

/// What a copy does.
#[derive(Debug, PartialEq, Eq)]
pub enum CopyPlan {
    /// Copy one source to a path inside the root.
    File(String, String),
    /// Make a directory inside the root, and copy each source into it under its file name, in
    /// order; a source without a file name gives a message and ends it.
    IntoDir(String, Vec<Result<(String, String), String>>),
}

/// What a [`CopyPlan`] holds.
pub enum CopyPlanView {
    File(Seq<char>, Seq<char>),
    IntoDir(Seq<char>, Seq<Result<(Seq<char>, Seq<char>), Seq<char>>>),
}

/// One step of a copy, with its texts taken as characters.
pub open spec fn step_view(step: Result<(String, String), String>) -> Result<
    (Seq<char>, Seq<char>),
    Seq<char>,
> {
    match step {
        Ok((src, name)) => Ok((src@, name@)),
        Err(e) => Err(e@),
    }
}

/// The steps of a copy, with their texts taken as characters.
pub open spec fn steps_view(steps: Seq<Result<(String, String), String>>) -> Seq<
    Result<(Seq<char>, Seq<char>), Seq<char>>,
> {
    steps.map_values(|s: Result<(String, String), String>| step_view(s))
}

impl View for CopyPlan {
    type V = CopyPlanView;

    open spec fn view(&self) -> CopyPlanView {
        match self {
            CopyPlan::File(src, dest) => CopyPlanView::File(src@, dest@),
            CopyPlan::IntoDir(dir, steps) => CopyPlanView::IntoDir(dir@, steps_view(steps@)),
        }
    }
}

/// What is done with one source of several.
pub open spec fn step_for(src: Seq<char>) -> Result<(Seq<char>, Seq<char>), Seq<char>> {
    match file_name_of(src) {
        Some(name) => Ok((src, name)),
        None => Err("copy source has no file name: "@ + src),
    }
}

/// What is done with each source of several.
pub open spec fn steps_for(srcs: Seq<Seq<char>>) -> Seq<Result<(Seq<char>, Seq<char>), Seq<char>>> {
    srcs.map_values(|src: Seq<char>| step_for(src))
}

/// What a copy does.
pub open spec fn plan_for(c: CopyDirective) -> CopyPlanView {
    match c.from {
        FromSpec::One(src) => CopyPlanView::File(src@, inside(c.into@)),
        FromSpec::Many(srcs) => CopyPlanView::IntoDir(inside(c.into@), steps_for(texts(srcs@))),
    }
}

/// Works out what a copy does.
pub fn copy_plan(c: &CopyDirective) -> (r: CopyPlan)
    ensures
        r@ == plan_for(*c),
{
    let into: String = inside_root(c.into.as_str());
    match &c.from {
        FromSpec::One(src) => CopyPlan::File(src.clone(), into),
        FromSpec::Many(srcs) => {
            let mut steps: Vec<Result<(String, String), String>> = Vec::new();
            let ghost want = steps_for(texts(srcs@));
            let mut i: usize = 0;
            assert(steps_view(steps@) =~= want.take(0));
            while i < srcs.len()
                invariant
                    i <= srcs@.len(),
                    want == steps_for(texts(srcs@)),
                    steps_view(steps@) == want.take(i as int),
                decreases srcs@.len() - i,
            {
                let ghost was = steps_view(steps@);
                assert(texts(srcs@)[i as int] == srcs@[i as int]@);
                let step: Result<(String, String), String> = match file_name(srcs[i].as_str()) {
                    Some(name) => Ok((srcs[i].clone(), name)),
                    None => {
                        let mut e: String = "copy source has no file name: ".to_owned();
                        e.append(srcs[i].as_str());
                        Err(e)
                    },
                };
                let ghost made = step_view(step);
                steps.push(step);
                i = i + 1;
                assert(steps_view(steps@) =~= was.push(made));
                assert(want.take(i as int) =~= want.take(i - 1).push(want[i - 1]));
            }
            assert(want.take(i as int) =~= want);
            CopyPlan::IntoDir(into, steps)
        },
    }
}

/// What a mode says: permission bits in octal, with or without a prefix.
pub open spec fn mode_outcome(mode: Seq<char>) -> Result<u32, Seq<char>> {
    match number_value(without_leading(mode, "0o"@), 8, u32::MAX as nat) {
        Ok(n) => Ok(n as u32),
        Err(fault) => Err("invalid mode "@ + debug_text(mode) + ": "@ + fault_text(fault)),
    }
}

/// Reads a mode.
pub fn mode_bits(mode: &str) -> (r: Result<u32, String>)
    ensures
        shown(r) == mode_outcome(mode@),
{
    match parse_number(strip_leading(mode, "0o"), 8, u32::MAX as u64) {
        Ok(n) => Ok(n as u32),
        Err(fault) => {
            let mut e: String = "invalid mode ".to_owned();
            e.append(quoted(mode).as_str());
            e.append(": ");
            e.append(fault.text());
            Err(e)
        },
    }
}

/// What is done about the owner and the group of a copied file: a number is set, a name is
/// passed over with a warning.
#[derive(Clone, Copy, Debug, PartialEq, Eq, Structural)]
pub struct Ownership {
    /// The owner to set.
    pub uid: Option<u32>,
    /// The group to set.
    pub gid: Option<u32>,
    /// Whether the owner is a name.
    pub named_owner: bool,
    /// Whether the group is a name.
    pub named_group: bool,
}

/// The number that an optional text holds, if it is there and is one.
pub open spec fn id_of(t: Option<String>) -> Option<u32> {
    match t {
        None => None,
        Some(s) => match number_value(s@, 10, u32::MAX as nat) {
            Ok(n) => Some(n as u32),
            Err(_) => None,
        },
    }
}

fn numeric(t: &Option<String>) -> (r: Option<u32>)
    ensures
        r == id_of(*t),
{
    match t {
        None => None,
        Some(s) => match parse_number(s.as_str(), 10, u32::MAX as u64) {
            Ok(n) => Some(n as u32),
            Err(_) => None,
        },
    }
}

/// What is done about the owner and the group of a copied file.
pub open spec fn ownership_of(c: CopyDirective) -> Ownership {
    Ownership {
        uid: id_of(c.owner),
        gid: id_of(c.group),
        named_owner: c.owner is Some && id_of(c.owner) is None,
        named_group: c.group is Some && id_of(c.group) is None,
    }
}

/// Works out what is done about the owner and the group of a copied file.
pub fn ownership(c: &CopyDirective) -> (r: Ownership)
    ensures
        r == ownership_of(*c),
{
    let uid: Option<u32> = numeric(&c.owner);
    let gid: Option<u32> = numeric(&c.group);
    Ownership {
        uid,
        gid,
        named_owner: c.owner.is_some() && uid.is_none(),
        named_group: c.group.is_some() && gid.is_none(),
    }
}

/// A copied file never lands under a name that leads out of its directory.
pub proof fn law_copied_names_stay_inside(src: Seq<char>)
    ensures
        step_for(src) matches Ok((_, name)) ==> name.len() > 0 && name != "."@ && name != ".."@
            && !name.contains('/'),
{
    if file_name_of(src) is Some {
        let all = pieces(src, Cut::At('/'));
        let named = |p: Seq<char>| p.len() > 0 && p != "."@;
        let i = lemma_last_kept(all, named);
        lemma_pieces_hold_no_cut(src, '/');
        assert(!all[i].contains('/'));
    }
}

/// The last item that a filter keeps is an item of the list, and one to keep.
proof fn lemma_last_kept(all: Seq<Seq<char>>, kept: spec_fn(Seq<char>) -> bool) -> (i: int)
    requires
        all.filter(kept).len() > 0,
    ensures
        0 <= i < all.len(),
        all[i] == all.filter(kept).last(),
        kept(all[i]),
    decreases all.len(),
{
    reveal(Seq::filter);
    if kept(all.last()) {
        all.len() - 1
    } else {
        let i = lemma_last_kept(all.drop_last(), kept);
        i
    }
}

/// No piece of a text holds the character that the text was cut at.
proof fn lemma_pieces_hold_no_cut(s: Seq<char>, sep: char)
    ensures
        pieces(s, Cut::At(sep)).len() > 0,
        forall|i: int|
            0 <= i < pieces(s, Cut::At(sep)).len() ==> !(#[trigger] pieces(
                s,
                Cut::At(sep),
            )[i]).contains(sep),
    decreases s.len(),
{
    let all = pieces(s, Cut::At(sep));
    if s.len() > 0 {
        lemma_pieces_hold_no_cut(s.drop_last(), sep);
        let front = pieces(s.drop_last(), Cut::At(sep));
        assert forall|i: int| 0 <= i < all.len() implies !(#[trigger] all[i]).contains(sep) by {
            if s.last() == sep {
                if i < front.len() {
                    assert(all[i] == front[i]);
                }
            } else if i < front.len() - 1 {
                assert(all[i] == front[i]);
            } else {
                assert(all[i] == front.last().push(s.last()));
                assert(!front[front.len() - 1].contains(sep));
                if all[i].contains(sep) {
                    let k = choose|k: int| 0 <= k < all[i].len() && all[i][k] == sep;
                    assert(front.last()[k] == sep);
                }
            }
        }
    }
}

/// An owner or a group that is a number in decimal is set as that number, each to its own side,
/// and is not taken for a name.
pub proof fn law_decimal_ids_are_set(c: CopyDirective, owner: String, group: String, u: u32, g: u32)
    ensures
        c.owner == Some(owner) && owner@ == decimal(u as nat) ==> ownership_of(c).uid == Some(u)
            && !ownership_of(c).named_owner,
        c.group == Some(group) && group@ == decimal(g as nat) ==> ownership_of(c).gid == Some(g)
            && !ownership_of(c).named_group,
{
    law_decimal_reads_back(u as nat, u32::MAX as nat);
    law_decimal_reads_back(g as nat, u32::MAX as nat);
}

/// Where an owner or a group is not given, nothing is set and there is nothing to warn about;
/// where one is given, either it is a number that is set or it is a name that is passed over. A
/// text with a character in it that is no decimal digit, beyond a sign in front, is a name.
pub proof fn law_names_are_passed_over(c: CopyDirective, owner: String, group: String, i: int)
    ensures
        c.owner is None ==> ownership_of(c).uid is None && !ownership_of(c).named_owner,
        c.group is None ==> ownership_of(c).gid is None && !ownership_of(c).named_group,
        c.owner is Some ==> ownership_of(c).named_owner == ownership_of(c).uid is None,
        c.group is Some ==> ownership_of(c).named_group == ownership_of(c).gid is None,
        c.owner == Some(owner) && 1 <= i < owner@.len() && !("0123456789"@.contains(owner@[i]))
            ==> ownership_of(c).named_owner,
        c.owner == Some(owner) && owner@.len() > 0 && owner@[0] != '+'
            && !("0123456789"@.contains(owner@[0])) ==> ownership_of(c).named_owner,
        c.group == Some(group) && 1 <= i < group@.len() && !("0123456789"@.contains(group@[i]))
            ==> ownership_of(c).named_group,
        c.group == Some(group) && group@.len() > 0 && group@[0] != '+'
            && !("0123456789"@.contains(group@[0])) ==> ownership_of(c).named_group,
{
    if c.owner == Some(owner) {
        lemma_no_number(owner@, i);
    }
    if c.group == Some(group) {
        lemma_no_number(group@, i);
    }
}

proof fn lemma_no_number(s: Seq<char>, i: int)
    ensures
        1 <= i < s.len() && !("0123456789"@.contains(s[i])) ==> number_value(
            s,
            10,
            u32::MAX as nat,
        ) is Err,
        s.len() > 0 && s[0] != '+' && !("0123456789"@.contains(s[0])) ==> number_value(
            s,
            10,
            u32::MAX as nat,
        ) is Err,
{
    reveal_strlit("0123456789");
    let ten = "0123456789"@;
    if 1 <= i < s.len() && !ten.contains(s[i]) {
        lemma_digit_of_ten(s[i]);
        if s[0] == '+' {
            assert(s.drop_first()[i - 1] == s[i]);
            lemma_fault_of(s.drop_first(), i - 1);
        } else {
            lemma_fault_of(s, i);
        }
    }
    if s.len() > 0 && s[0] != '+' && !ten.contains(s[0]) {
        lemma_digit_of_ten(s[0]);
        lemma_fault_of(s, 0);
    }
}

proof fn lemma_digit_of_ten(c: char)
    requires
        !("0123456789"@.contains(c)),
    ensures
        digit_value(c, 10) is None,
{
    reveal_strlit("0123456789");
    if let Some(v) = digit_value(c, 10) {
        assert("0123456789"@[v as int] == c);
    }
}

proof fn lemma_fault_of(s: Seq<char>, i: int)
    requires
        0 <= i < s.len(),
        digit_value(s[i], 10) is None,
    ensures
        digits_value(s, 10, u32::MAX as nat) is Err,
    decreases s.len(),
{
    if i < s.len() - 1 {
        assert(s.drop_last()[i] == s[i]);
        lemma_fault_of(s.drop_last(), i);
    }
}

/// A mode in octal, with or without `0o` in front, gives its permission bits.
pub proof fn law_modes_are_octal(bits: u32)
    ensures
        mode_outcome(octal(bits as nat)) == Ok::<u32, Seq<char>>(bits),
        mode_outcome("0o"@ + octal(bits as nat)) == Ok::<u32, Seq<char>>(bits),
        mode_outcome("0"@ + octal(bits as nat)) == Ok::<u32, Seq<char>>(bits),
{
    let n = bits as nat;
    let s = octal(n);
    lemma_octal_reads_back(n, u32::MAX as nat);
    reveal_strlit("0o");
    reveal_strlit("0");
    assert(!("0o"@.is_prefix_of(s))) by {
        if "0o"@.is_prefix_of(s) {
            assert(s[1] == "0o"@[1]);
        }
    }
    let marked = "0o"@ + s;
    assert("0o"@.is_prefix_of(marked));
    assert(marked.skip(2) =~= s);
    let long = "0"@ + s;
    assert(!("0o"@.is_prefix_of(long))) by {
        if "0o"@.is_prefix_of(long) {
            assert(long[1] == "0o"@[1]);
            assert(long[1] == s[0]);
        }
    }
    assert("0"@ =~= seq!['0']);
    lemma_zeros_in_front("0"@, s, 8, u32::MAX as nat);
    assert(long[0] == '0' && s[0] != '+');
}

/// A path inside the root is the path without the slashes in front: nothing else of it goes, and
/// it no longer starts with a slash, so that it cannot lead out of the root from its top.
pub proof fn law_inside_paths_are_relative(path: Seq<char>)
    ensures
        inside(seq!['/'] + path) == inside(path),
        path.len() == 0 || path[0] != '/' ==> inside(path) == path,
        inside(path).len() > 0 ==> inside(path)[0] != '/',
{
    reveal_strlit("/");
    let slash = "/"@;
    assert(slash =~= seq!['/']);
    law_leading_repetitions_go(slash, path);
    if path.len() > 0 && path[0] != '/' {
        assert(!slash.is_prefix_of(path)) by {
            if slash.is_prefix_of(path) {
                assert(path.subrange(0, 1)[0] == slash[0]);
            }
        }
    }
    let rest = inside(path);
    if rest.len() > 0 && rest[0] == '/' {
        assert(rest.subrange(0, 1) =~= slash);
        assert(slash.is_prefix_of(rest));
    }
}

/// The file name of a path is what follows its last slash; slashes at the end, and dots that
/// stand for the directory itself, do not count. A path that ends with the way up, and one that
/// names nothing, have no file name.
pub proof fn law_file_name_is_the_last_part(dir: Seq<char>, name: Seq<char>)
    requires
        forall|i: int| 0 <= i < name.len() ==> #[trigger] name[i] != '/',
    ensures
        file_name_of(Seq::empty()) is None,
        name.len() > 0 && name != "."@ && name != ".."@ ==> file_name_of(name) == Some(name)
            && file_name_of(dir + seq!['/'] + name) == Some(name),
        name == ".."@ ==> file_name_of(name) is None && file_name_of(dir + seq!['/'] + name)
            is None,
        name.len() == 0 || name == "."@ ==> file_name_of(name) is None && file_name_of(
            dir + seq!['/'] + name,
        ) == file_name_of(dir),
{
    reveal(Seq::filter);
    reveal_strlit(".");
    reveal_strlit("..");
    let cut = Cut::At('/');
    let named = |p: Seq<char>| p.len() > 0 && p != "."@;
    law_pieces_follow_the_cuts(dir, '/', name, cut);
    let none = Seq::<Seq<char>>::empty();
    assert(seq![name].drop_last() =~= none);
    assert(none.filter(named) =~= none);
    let empty = seq![Seq::<char>::empty()];
    assert(empty.drop_last() =~= none);
    assert(empty.filter(named) =~= none);
    let all = pieces(dir, cut);
    assert(all.push(name).drop_last() =~= all);
    if named(name) {
        assert(seq![name].filter(named) =~= none.push(name));
        assert(all.push(name).filter(named) == all.filter(named).push(name));
    } else {
        assert(seq![name].filter(named) =~= none);
        assert(all.push(name).filter(named) == all.filter(named));
    }
}

/// A single source goes to the destination inside the root. Several go, each in its turn, into
/// the destination as a directory, each from its own path and under its own file name; one that
/// has no file name gives a message that names it.
pub proof fn law_copies_go_where_they_should(
    c: CopyDirective,
    src: String,
    srcs: Vec<String>,
    i: int,
)
    ensures
        c.from == FromSpec::One(src) ==> plan_for(c) == CopyPlanView::File(src@, inside(c.into@)),
        c.from == FromSpec::Many(srcs) ==> (plan_for(c) matches CopyPlanView::IntoDir(dir, steps)
            && dir == inside(c.into@) && steps.len() == srcs@.len() && (0 <= i < srcs@.len() ==> (
        match file_name_of(srcs@[i]@) {
            Some(name) => steps[i] == Ok::<(Seq<char>, Seq<char>), Seq<char>>((srcs@[i]@, name)),
            None => steps[i] matches Err(e) && srcs@[i]@.is_suffix_of(e),
        }))),
{
    if c.from == FromSpec::Many(srcs) && 0 <= i < srcs@.len() {
        let s = srcs@[i]@;
        assert(texts(srcs@)[i] == s);
        let e = "copy source has no file name: "@ + s;
        assert(e.subrange(e.len() - s.len(), e.len() as int) =~= s);
    }
}

/// An owner or a group is a number exactly where it reads as one in decimal that fits in 32 bits,
/// and then that number is set; a mode is right exactly where it reads as such a number in octal
/// behind any `0o`.
pub proof fn law_ids_and_modes_are_numbers(c: CopyDirective, owner: String, n: u32, mode: Seq<char>)
    ensures
        c.owner == Some(owner) ==> (ownership_of(c).uid == Some(n) <==> number_value(
            owner@,
            10,
            0xffff_ffff,
        ) == Ok::<nat, IntFault>(n as nat)),
        c.group == Some(owner) ==> (ownership_of(c).gid == Some(n) <==> number_value(
            owner@,
            10,
            0xffff_ffff,
        ) == Ok::<nat, IntFault>(n as nat)),
        mode_outcome(mode) == Ok::<u32, Seq<char>>(n) <==> number_value(
            without_leading(mode, "0o"@),
            8,
            0xffff_ffff,
        ) == Ok::<nat, IntFault>(n as nat),
{
    if c.owner == Some(owner) || c.group == Some(owner) {
        lemma_within(owner@, 10, 0xffff_ffff);
    }
    lemma_within(without_leading(mode, "0o"@), 8, 0xffff_ffff);
}

proof fn lemma_within(s: Seq<char>, radix: nat, max: nat)
    ensures
        number_value(s, radix, max) matches Ok(v) ==> v <= max,
{
    lemma_digits_within(s, radix, max);
    if s.len() > 0 {
        lemma_digits_within(s.drop_first(), radix, max);
    }
}

proof fn lemma_digits_within(s: Seq<char>, radix: nat, max: nat)
    ensures
        digits_value(s, radix, max) matches Ok(v) ==> v <= max,
    decreases s.len(),
{
    if s.len() > 0 {
        lemma_digits_within(s.drop_last(), radix, max);
    }
}

} // verus!
