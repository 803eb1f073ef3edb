//! What the first process decides: how it was called, and which kernel modules it loads.

use vstd::prelude::*;
use vstd::utf8::{
    decode_utf8, encode_utf8, encode_utf8_decode_utf8, encode_utf8_valid_utf8, valid_utf8,
};

use crate::order::{
    before, byte_codes, bytes_before, lemma_before_asymmetric, lemma_before_total,
    lemma_before_transitive,
};
use crate::text::{
    after_prefix, cuts, law_pieces_follow_the_cuts, law_prefix_and_rest_make_the_text, pieces, same,
    texts, Cut,
};

verus! {

/// The first argument of a process that runs a command in a root.
pub const EXEC_IN_ROOT_ARG: &'static str = "__exec-in-root";

/// The root and the command that the arguments ask for, if they ask for that.
pub open spec fn exec_request(args: Seq<Seq<char>>) -> Option<(Seq<char>, Seq<char>)> {
    if args.len() < 2 || args[1] != EXEC_IN_ROOT_ARG@ {
        None
    } else {
        Some(
            (
                if args.len() > 2 {
                    args[2]
                } else {
                    "/"@
                },
                if args.len() > 3 {
                    args[3]
                } else {
                    ""@
                },
            ),
        )
    }
}

/// Reads the arguments: a process that is to run a command in a root is told which command and
/// which root.
pub fn parse_args(args: &Vec<String>) -> (r: Option<(String, String)>)
    ensures
        match r {
            Some((root, cmd)) => exec_request(texts(args@)) == Some((root@, cmd@)),
            None => exec_request(texts(args@)) is None,
        },
{
    if args.len() < 2 || !same(args[1].as_str(), EXEC_IN_ROOT_ARG) {
        return None;
    }
    let root: String = if args.len() > 2 {
        args[2].clone()
    } else {
        "/".to_owned()
    };
    let cmd: String = if args.len() > 3 {
        args[3].clone()
    } else {
        "".to_owned()
    };
    Some((root, cmd))
}

/// Whether a file name is that of a kernel module: a stem and the extension `ko`.
pub open spec fn is_module(name: Seq<u8>) -> bool {
    name.len() > 3 && name.subrange(name.len() - 3, name.len() as int) == seq![46u8, 107, 111]
}

fn names_module(name: &Vec<u8>) -> (r: bool)
    ensures
        r == is_module(name@),
{
    let n: usize = name.len();
    if n > 3 {
        assert(name@.subrange(n - 3, n as int) =~= seq![
            name@[n - 3],
            name@[n - 2],
            name@[n - 1],
        ]);
        let r: bool = name[n - 3] == 46 && name[n - 2] == 107 && name[n - 1] == 111;
        assert(!r ==> seq![name@[n - 3], name@[n - 2], name@[n - 1]] != seq![46u8, 107, 111]) by {
            let s = seq![name@[n - 3], name@[n - 2], name@[n - 1]];
            let t = seq![46u8, 107, 111];
            assert(s == t ==> s[0] == t[0] && s[1] == t[1] && s[2] == t[2]);
        }
        r
    } else {
        false
    }
}

/// File names as byte strings.
pub open spec fn names_view(names: Seq<Vec<u8>>) -> Seq<Seq<u8>> {
    names.map_values(|n: Vec<u8>| n@)
}

/// Whether names stand in order, byte by byte; a name may occur again right after itself.
pub open spec fn names_in_order(names: Seq<Seq<u8>>) -> bool {
    forall|i: int, j: int|
        0 <= i < j < names.len() ==> !before(
            byte_codes(#[trigger] names[j]),
            byte_codes(#[trigger] names[i]),
        )
}

/// Names with one more in its place: after those that do not come after it.
pub open spec fn with_name(names: Seq<Seq<u8>>, name: Seq<u8>) -> Seq<Seq<u8>>
    decreases names.len(),
{
    if names.len() == 0 {
        seq![name]
    } else if before(byte_codes(name), byte_codes(names.last())) {
        with_name(names.drop_last(), name).push(names.last())
    } else {
        names.push(name)
    }
}

/// The modules among the names of a directory, in the order in which they are loaded.
pub open spec fn load_order_of(names: Seq<Seq<u8>>) -> Seq<Seq<u8>>
    decreases names.len(),
{
    if names.len() == 0 {
        Seq::empty()
    } else if is_module(names.last()) {
        with_name(load_order_of(names.drop_last()), names.last())
    } else {
        load_order_of(names.drop_last())
    }
}

/// Puts a name in its place.
fn place_name(names: &mut Vec<Vec<u8>>, name: Vec<u8>)
    ensures
        names_view(final(names)@) == with_name(names_view(old(names)@), name@),
{
    let ghost was = names_view(names@);
    let mut i: usize = names.len();
    assert(was.take(was.len() as int) =~= was);
    assert(was.skip(was.len() as int) =~= Seq::empty());
    assert(with_name(was, name@) + Seq::<Seq<u8>>::empty() =~= with_name(was, name@));
    while i > 0 && bytes_before(name.as_slice(), names[i - 1].as_slice())
        invariant
            i <= names@.len(),
            names_view(names@) == was,
            with_name(was.take(i as int), name@) + was.skip(i as int) == with_name(was, name@),
        decreases i,
    {
        let ghost front = was.take(i as int);
        assert(front.drop_last() =~= was.take(i - 1));
        assert(front.last() == was[i - 1]);
        assert(with_name(front.drop_last(), name@).push(was[i - 1]) + was.skip(i as int)
            =~= with_name(was.take(i - 1), name@) + was.skip(i - 1));
        i = i - 1;
    }
    let ghost placed = name@;
    let ghost at = i as int;
    names.insert(i, name);
    let ghost now = names_view(names@);
    assert(now =~= was.take(at).push(placed) + was.skip(at));
    assert(at == 0 ==> was.take(at).push(placed) =~= seq![placed]);
}

/// The text that some bytes hold, by `std::str::from_utf8`, where they are UTF-8.
#[verifier::external_body]
pub(crate) fn utf8_text(bytes: &[u8]) -> (r: Option<String>)
    ensures
        match r {
            Some(text) => valid_utf8(bytes@) && text@ == decode_utf8(bytes@),
            None => !valid_utf8(bytes@),
        },
{
    std::str::from_utf8(bytes).ok().map(String::from)
}

/// The modules among the names of a directory, in the order in which they are loaded.
fn ordered_files(names: Vec<Vec<u8>>) -> (r: Vec<Vec<u8>>)
    ensures
        names_view(r@) == load_order_of(names_view(names@)),
{
    let ghost all = names_view(names@);
    let mut r: Vec<Vec<u8>> = Vec::new();
    let mut i: usize = 0;
    assert(names_view(r@) =~= Seq::empty());
    assert(all.take(0) =~= Seq::empty());
    while i < names.len()
        invariant
            i <= names@.len(),
            all == names_view(names@),
            names_view(r@) == load_order_of(all.take(i as int)),
        decreases names@.len() - i,
    {
        assert(all.take(i + 1).drop_last() =~= all.take(i as int));
        assert(all.take(i + 1).last() == names@[i as int]@);
        if names_module(&names[i]) {
            place_name(&mut r, names[i].clone());
        }
        i = i + 1;
    }
    assert(all.take(i as int) =~= all);
    r
}

/// What a module is called: its file name without the extension, or a question mark where that
/// is no text.
pub open spec fn module_name_of(file: Seq<u8>) -> Seq<char> {
    let stem = if file.len() < 3 {
        file
    } else {
        file.take(file.len() - 3)
    };
    if valid_utf8(stem) {
        decode_utf8(stem)
    } else {
        "?"@
    }
}

/// What a module is called.
fn module_name(file: &Vec<u8>) -> (r: String)
    ensures
        r@ == module_name_of(file@),
{
    let stem: &[u8] = if file.len() < 3 {
        file.as_slice()
    } else {
        vstd::slice::slice_subrange(file.as_slice(), 0, file.len() - 3)
    };
    assert(file@.len() >= 3 ==> stem@ =~= file@.take(file@.len() - 3));
    match utf8_text(stem) {
        Some(name) => name,
        None => "?".to_owned(),
    }
}

/// A kernel module: its file, and what it is called.
#[derive(Debug, PartialEq, Eq)]
pub struct Module {
    pub file: Vec<u8>,
    pub name: String,
}

impl View for Module {
    type V = (Seq<u8>, Seq<char>);

    open spec fn view(&self) -> (Seq<u8>, Seq<char>) {
        (self.file@, self.name@)
    }
}

/// Files as modules.
pub open spec fn modules_of(files: Seq<Seq<u8>>) -> Seq<(Seq<u8>, Seq<char>)> {
    files.map_values(|f: Seq<u8>| (f, module_name_of(f)))
}

/// Picks the modules out of the names of a directory and puts them in the order in which they
/// are loaded: that of their names, so that a numbered prefix says what depends on what.
pub fn load_order(names: Vec<Vec<u8>>) -> (r: Vec<Module>)
    ensures
        r@.map_values(|m: Module| m@) == modules_of(load_order_of(names_view(names@))),
{
    let files: Vec<Vec<u8>> = ordered_files(names);
    let ghost want = modules_of(names_view(files@));
    let mut r: Vec<Module> = Vec::new();
    let mut i: usize = 0;
    assert(r@.map_values(|m: Module| m@) =~= want.take(0));
    while i < files.len()
        invariant
            i <= files@.len(),
            want == modules_of(names_view(files@)),
            r@.map_values(|m: Module| m@) == want.take(i as int),
        decreases files@.len() - i,
    {
        let ghost was = r@.map_values(|m: Module| m@);
        let module: Module = Module { file: files[i].clone(), name: module_name(&files[i]) };
        let ghost made = module@;
        assert(made == want[i as int]);
        r.push(module);
        i = i + 1;
        assert(r@.map_values(|m: Module| m@) =~= was.push(made));
        assert(want.take(i as int) =~= want.take(i - 1).push(want[i - 1]));
    }
    assert(want.take(i as int) =~= want);
    r
}

/// What the modules are called that were loaded, of those that were tried.
pub open spec fn loaded_of(tried: Seq<(Module, bool)>) -> Seq<Seq<char>> {
    tried.filter(|t: (Module, bool)| t.1).map_values(|t: (Module, bool)| t.0.name@)
}

/// What the modules are called that were loaded, of those that were tried in turn; one that was
/// not is passed over.
pub fn loaded_modules(tried: &Vec<(Module, bool)>) -> (r: Vec<String>)
    ensures
        texts(r@) == loaded_of(tried@),
{
    let mut r: Vec<String> = Vec::new();
    let mut i: usize = 0;
    proof {
        reveal(Seq::filter);
        assert(texts(r@) =~= loaded_of(tried@.take(0)));
    }
    while i < tried.len()
        invariant
            i <= tried@.len(),
            texts(r@) == loaded_of(tried@.take(i as int)),
        decreases tried@.len() - i,
    {
        let ghost was = texts(r@);
        if tried[i].1 {
            r.push(tried[i].0.name.clone());
        }
        proof {
            reveal(Seq::filter);
            let last = tried@[i as int];
            assert(tried@.take(i + 1).drop_last() =~= tried@.take(i as int));
            assert(texts(r@) =~= if last.1 {
                was.push(last.0.name@)
            } else {
                was
            });
            assert(texts(r@) =~= loaded_of(tried@.take(i + 1)));
        }
        i = i + 1;
    }
    assert(tried@.take(i as int) =~= tried@);
    r
}

/// Texts with commas between them.
pub open spec fn with_commas(names: Seq<Seq<char>>) -> Seq<char>
    decreases names.len(),
{
    if names.len() == 0 {
        Seq::empty()
    } else if names.len() == 1 {
        names[0]
    } else {
        with_commas(names.drop_last()) + ","@ + names.last()
    }
}

/// The line that reports the modules that were loaded, if any were.
pub open spec fn report_of(loaded: Seq<Seq<char>>) -> Option<Seq<char>> {
    if loaded.len() == 0 {
        None
    } else {
        Some("CONGLOBATE-MODULES: "@ + with_commas(loaded))
    }
}

/// The line that reports the modules that were loaded, if any were.
pub fn modules_report(loaded: &Vec<String>) -> (r: Option<String>)
    ensures
        match r {
            Some(line) => report_of(texts(loaded@)) == Some(line@),
            None => report_of(texts(loaded@)) is None,
        },
{
    if loaded.len() == 0 {
        return None;
    }
    let ghost all = texts(loaded@);
    let mut list: String = loaded[0].clone();
    let mut i: usize = 1;
    assert(all.take(1) =~= seq![loaded@[0]@]);
    while i < loaded.len()
        invariant
            1 <= i <= loaded@.len(),
            all == texts(loaded@),
            list@ == with_commas(all.take(i as int)),
        decreases loaded@.len() - i,
    {
        list.append(",");
        list.append(loaded[i].as_str());
        assert(all.take(i + 1).drop_last() =~= all.take(i as int));
        assert(all.take(i + 1).last() == loaded@[i as int]@);
        i = i + 1;
    }
    assert(all.take(i as int) =~= all);
    let mut line: String = "CONGLOBATE-MODULES: ".to_owned();
    line.append(list.as_str());
    Some(line)
}

/// The modules among the names that a directory lists.
pub open spec fn modules_in(names: Seq<Seq<u8>>) -> Seq<Seq<u8>> {
    names.filter(|n: Seq<u8>| is_module(n))
}

/// Every module of a directory is loaded as often as it is listed and nothing else is, in the
/// order of the names.
pub proof fn law_modules_load_in_order(names: Seq<Seq<u8>>)
    ensures
        names_in_order(load_order_of(names)),
        load_order_of(names).to_multiset() == modules_in(names).to_multiset(),
    decreases names.len(),
{
    reveal(Seq::filter);
    broadcast use vstd::seq_lib::group_to_multiset_ensures;

    if names.len() > 0 {
        law_modules_load_in_order(names.drop_last());
        if is_module(names.last()) {
            lemma_placed(load_order_of(names.drop_last()), names.last());
        }
    }
}

proof fn lemma_placed(names: Seq<Seq<u8>>, name: Seq<u8>)
    requires
        names_in_order(names),
    ensures
        names_in_order(with_name(names, name)),
        with_name(names, name).to_multiset() == names.to_multiset().insert(name),
        forall|i: int|
            0 <= i < with_name(names, name).len() ==> (#[trigger] with_name(names, name)[i]) == name
                || names.contains(with_name(names, name)[i]),
    decreases names.len(),
{
    broadcast use vstd::seq_lib::group_to_multiset_ensures;

    let put = with_name(names, name);
    if names.len() == 0 {
        assert(seq![name] =~= Seq::<Seq<u8>>::empty().push(name));
        assert(names =~= Seq::empty());
    } else {
        let front = names.drop_last();
        let last = names.last();
        assert(names =~= front.push(last));
        assert forall|i: int, j: int| 0 <= i < j < front.len() implies !before(
            byte_codes(#[trigger] front[j]),
            byte_codes(#[trigger] front[i]),
        ) by {
            assert(front[i] == names[i] && front[j] == names[j]);
        }
        if before(byte_codes(name), byte_codes(last)) {
            lemma_placed(front, name);
            let more = with_name(front, name);
            assert(put =~= more.push(last));
            assert(more.push(last).to_multiset() =~= front.push(last).to_multiset().insert(name));
            assert forall|i: int| 0 <= i < put.len() implies (#[trigger] put[i]) == name
                || names.contains(put[i]) by {
                if i < more.len() {
                    assert(put[i] == more[i]);
                    if more[i] != name {
                        let k = choose|k: int| 0 <= k < front.len() && front[k] == more[i];
                        assert(names[k] == put[i]);
                    }
                } else {
                    assert(names[names.len() - 1] == put[i]);
                }
            }
            assert forall|i: int, j: int| 0 <= i < j < put.len() implies !before(
                byte_codes(#[trigger] put[j]),
                byte_codes(#[trigger] put[i]),
            ) by {
                assert(put[i] == more[i]);
                if j < more.len() {
                    assert(put[j] == more[j]);
                } else if more[i] == name {
                    lemma_before_asymmetric(byte_codes(name), byte_codes(last));
                } else {
                    let k = choose|k: int| 0 <= k < front.len() && front[k] == more[i];
                    assert(names[k] == more[i] && names[names.len() - 1] == last);
                }
            }
        } else {
            assert forall|i: int| 0 <= i < put.len() implies (#[trigger] put[i]) == name
                || names.contains(put[i]) by {
                if i < names.len() {
                    assert(names[i] == put[i]);
                }
            }
            assert forall|i: int, j: int| 0 <= i < j < put.len() implies !before(
                byte_codes(#[trigger] put[j]),
                byte_codes(#[trigger] put[i]),
            ) by {
                if j < names.len() {
                    assert(put[i] == names[i] && put[j] == names[j]);
                } else if before(byte_codes(name), byte_codes(put[i])) {
                    assert(put[i] == names[i]);
                    if i < names.len() - 1 {
                        assert(!before(byte_codes(names[names.len() - 1]), byte_codes(names[i])));
                        lemma_before_total(byte_codes(names[i]), byte_codes(last));
                        if before(byte_codes(names[i]), byte_codes(last)) {
                            lemma_before_transitive(
                                byte_codes(name),
                                byte_codes(names[i]),
                                byte_codes(last),
                            );
                        }
                    }
                }
            }
        }
    }
}

/// A process runs a command in a root exactly where its first argument asks for that: the second
/// is the root and the third the command, and what is left out is the top and nothing.
pub proof fn law_arguments_ask_for_a_command(
    program: Seq<char>,
    first: Seq<char>,
    root: Seq<char>,
    cmd: Seq<char>,
    more: Seq<Seq<char>>,
)
    ensures
        exec_request(seq![program]) is None,
        first != "__exec-in-root"@ ==> exec_request(seq![program, first, root, cmd] + more) is None,
        exec_request(seq![program, "__exec-in-root"@, root, cmd] + more) == Some((root, cmd)),
        exec_request(seq![program, "__exec-in-root"@, root]) == Some((root, ""@)),
        exec_request(seq![program, "__exec-in-root"@]) == Some(("/"@, ""@)),
{
    let args = seq![program, first, root, cmd] + more;
    assert(args[1] == first);
    let asked = seq![program, "__exec-in-root"@, root, cmd] + more;
    assert(asked[1] == "__exec-in-root"@ && asked[2] == root && asked[3] == cmd);
}

/// A module is a file whose name ends with `.ko` after at least one other byte, and it is called
/// by what stands before that.
pub proof fn law_modules_end_with_ko(stem: Seq<u8>, name: Seq<u8>, called: Seq<char>)
    ensures
        is_module(stem + seq![46u8, 107, 111]) <==> stem.len() > 0,
        is_module(name) ==> name == name.take(name.len() - 3) + seq![46u8, 107, 111] && name.len()
            > 3,
        module_name_of(encode_utf8(called) + seq![46u8, 107, 111]) == called,
        !valid_utf8(stem) ==> module_name_of(stem + seq![46u8, 107, 111]) == "?"@,
{
    let ko = seq![46u8, 107, 111];
    let s = stem + ko;
    assert(s.subrange(s.len() - 3, s.len() as int) =~= ko);
    assert(s.take(s.len() - 3) =~= stem);
    if is_module(name) {
        assert(name =~= name.take(name.len() - 3) + name.subrange(
            name.len() - 3,
            name.len() as int,
        ));
    }
    let bytes = encode_utf8(called);
    assert((bytes + ko).take((bytes + ko).len() - 3) =~= bytes);
    encode_utf8_valid_utf8(called);
    encode_utf8_decode_utf8(called);
}

/// Of the modules that were tried, those that were loaded are reported, in the order in which they
/// were tried, and the others are not.
pub proof fn law_loaded_modules_are_reported(tried: Seq<(Module, bool)>, module: Module)
    ensures
        loaded_of(Seq::empty()) == Seq::<Seq<char>>::empty(),
        loaded_of(tried.push((module, true))) == loaded_of(tried).push(module.name@),
        loaded_of(tried.push((module, false))) == loaded_of(tried),
{
    reveal(Seq::filter);
    assert(tried.push((module, true)).drop_last() =~= tried);
    assert(tried.push((module, false)).drop_last() =~= tried);
    assert(loaded_of(Seq::empty()) =~= Seq::<Seq<char>>::empty());
    assert(loaded_of(tried.push((module, true))) =~= loaded_of(tried).push(module.name@));
}

/// The report is one line with the names of all modules that were loaded, in order, with commas
/// between them; without such a module there is no report.
pub proof fn law_report_lists_the_modules(names: Seq<Seq<char>>)
    requires
        forall|i: int, j: int|
            #![trigger names[i][j]]
            0 <= i < names.len() && 0 <= j < names[i].len() ==> names[i][j] != ',',
    ensures
        report_of(names) is None <==> names.len() == 0,
        report_of(names) matches Some(line) ==> (after_prefix(line, "CONGLOBATE-MODULES: "@)
            matches Some(list) && pieces(list, Cut::At(',')) == names),
{
    if names.len() > 0 {
        lemma_commas(names);
        let list = with_commas(names);
        let line = "CONGLOBATE-MODULES: "@ + list;
        law_prefix_and_rest_make_the_text("CONGLOBATE-MODULES: "@, line, list);
    }
}

proof fn lemma_commas(names: Seq<Seq<char>>)
    requires
        names.len() > 0,
        forall|i: int, j: int|
            #![trigger names[i][j]]
            0 <= i < names.len() && 0 <= j < names[i].len() ==> names[i][j] != ',',
    ensures
        pieces(with_commas(names), Cut::At(',')) == names,
    decreases names.len(),
{
    reveal_strlit(",");
    let cut = Cut::At(',');
    let last = names.last();
    assert forall|j: int| 0 <= j < last.len() implies !cuts(cut, #[trigger] last[j]) by {
        assert(names[names.len() - 1][j] != ',');
    }
    let front = names.drop_last();
    law_pieces_follow_the_cuts(with_commas(front), ',', last, cut);
    if names.len() == 1 {
        assert(names =~= seq![last]);
    } else {
        assert forall|i: int, j: int|
            #![trigger front[i][j]]
            0 <= i < front.len() && 0 <= j < front[i].len() implies front[i][j] != ',' by {
            assert(names[i][j] != ',');
        }
        lemma_commas(front);
        assert(with_commas(names) =~= with_commas(front) + seq![','] + last);
        assert(front.push(last) =~= names);
    }
}

} // verus!
