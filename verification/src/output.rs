//! What a build leaves behind: the chain of scutes, and the manifest that lists them.

use vstd::prelude::*;
use vstd::utf8::encode_utf8;

use crate::hash::{hex_encode, hex_of, hex_outcome, law_hex_reads_back, HexFault};
use crate::lock::{found, LockEntryView, RefsLock};
use crate::recipe::RecipeError;
use crate::scute::{cow_name, cow_name_of, text_shown, verity_name, verity_name_of};
use crate::text::{after_prefix, law_prefix_and_rest_make_the_text, strip_prefix};
use crate::yaml::{
    doc_fits, doc_view, field_of, fields_view, fits, write_yaml, yaml_text, YamlNode, YamlNodeView,
};

verus! {

/// One scute that a build made.
#[derive(Debug, Clone, PartialEq, Eq)]
pub struct ScuteOut {
    /// The file of its chunks.
    pub cow: String,
    /// The file of its seal.
    pub verity: String,
    /// The salt of its seal, in hexadecimal.
    pub salt: String,
}

/// What a [`ScuteOut`] holds.
pub struct ScuteView {
    pub cow: Seq<char>,
    pub verity: Seq<char>,
    pub salt: Seq<char>,
}

impl View for ScuteOut {
    type V = ScuteView;

    open spec fn view(&self) -> ScuteView {
        ScuteView { cow: self.cow@, verity: self.verity@, salt: self.salt@ }
    }
}

/// Scutes, in order.
pub open spec fn scutes_view(scutes: Seq<ScuteOut>) -> Seq<ScuteView> {
    scutes.map_values(|s: ScuteOut| s@)
}

/// The manifest of a build.
#[derive(Debug, Clone)]
pub struct BuildOutput {
    /// The scutes, from the base to the top.
    pub scutes: Vec<ScuteOut>,
    /// The file of the sealed PMI, if one was built.
    pub pmi: Option<String>,
}

/// What a [`BuildOutput`] holds.
pub struct OutputView {
    pub scutes: Seq<ScuteView>,
    pub pmi: Option<Seq<char>>,
}

impl View for BuildOutput {
    type V = OutputView;

    open spec fn view(&self) -> OutputView {
        OutputView {
            scutes: scutes_view(self.scutes@),
            pmi: match self.pmi {
                Some(name) => Some(name@),
                None => None,
            },
        }
    }
}

/// The record that a scute is written as.
pub open spec fn scute_record(s: ScuteView) -> Seq<(Seq<char>, Seq<char>)> {
    seq![("cow"@, s.cow), ("verity"@, s.verity), ("salt"@, s.salt)]
}

/// The records of scutes, in order.
pub open spec fn scute_records(scutes: Seq<ScuteView>) -> Seq<Seq<(Seq<char>, Seq<char>)>> {
    scutes.map_values(|s: ScuteView| scute_record(s))
}

/// The document that a manifest is written as.
pub open spec fn output_doc(out: OutputView) -> Seq<(Seq<char>, YamlNodeView)> {
    seq![
        ("scutes"@, YamlNodeView::Records(scute_records(out.scutes))),
        (
            "pmi"@,
            match out.pmi {
                Some(name) => YamlNodeView::Text(name),
                None => YamlNodeView::Null,
            },
        ),
    ]
}

/// The fields of a scute's record.
fn record_of(s: &ScuteOut) -> (r: Vec<(String, String)>)
    ensures
        fields_view(r@) == scute_record(s@),
{
    let r: Vec<(String, String)> = vec![
        ("cow".to_owned(), s.cow.clone()),
        ("verity".to_owned(), s.verity.clone()),
        ("salt".to_owned(), s.salt.clone()),
    ];
    assert(fields_view(r@) =~= scute_record(s@));
    r
}

impl BuildOutput {
    /// Takes the outcome of reading a manifest as YAML.
    pub fn parse(decoded: Result<BuildOutput, serde_yaml::Error>) -> (r: Result<
        BuildOutput,
        RecipeError,
    >)
        ensures
            match decoded {
                Ok(out) => r == Ok::<BuildOutput, RecipeError>(out),
                Err(e) => r == Err::<BuildOutput, RecipeError>(RecipeError::Parse(e)),
            },
    {
        match decoded {
            Ok(out) => Ok(out),
            Err(e) => Err(RecipeError::Parse(e)),
        }
    }

    /// The manifest as a document.
    fn doc(&self) -> (doc: Vec<(String, YamlNode)>)
        ensures
            doc_view(doc@) == output_doc(self@),
    {
        let mut records: Vec<Vec<(String, String)>> = Vec::new();
        let ghost want = scute_records(self@.scutes);
        let mut i: usize = 0;
        assert(records@.map_values(|r: Vec<(String, String)>| fields_view(r@)) =~= want.take(0));
        while i < self.scutes.len()
            invariant
                i <= self.scutes@.len(),
                want == scute_records(self@.scutes),
                records@.map_values(|r: Vec<(String, String)>| fields_view(r@)) == want.take(
                    i as int,
                ),
            decreases self.scutes@.len() - i,
        {
            let ghost was = records@.map_values(|r: Vec<(String, String)>| fields_view(r@));
            records.push(record_of(&self.scutes[i]));
            assert(records@.map_values(|r: Vec<(String, String)>| fields_view(r@)) =~= was.push(
                want[i as int],
            ));
            i = i + 1;
            assert(want.take(i as int) =~= want.take(i - 1).push(want[i - 1]));
        }
        assert(want.take(i as int) =~= want);
        let pmi: YamlNode = match &self.pmi {
            Some(name) => YamlNode::Text(name.clone()),
            None => YamlNode::Null,
        };
        let doc: Vec<(String, YamlNode)> = vec![
            ("scutes".to_owned(), YamlNode::Records(records)),
            ("pmi".to_owned(), pmi),
        ];
        assert(doc_view(doc@) =~= output_doc(self@));
        doc
    }

    /// Whether the manifest is small enough to be written as YAML.
    pub fn fits_yaml(&self) -> (r: bool)
        ensures
            r == doc_fits(output_doc(self@)),
    {
        fits(&self.doc())
    }

    /// The manifest as YAML.
    pub fn to_yaml(&self) -> (r: Result<String, RecipeError>)
        requires
            doc_fits(output_doc(self@)),
        ensures
            r is Ok,
            (r->Ok_0)@ == yaml_text(output_doc(self@)),
    {
        match write_yaml(&self.doc()) {
            Ok(text) => Ok(text),
            Err(e) => Err(RecipeError::Parse(e)),
        }
    }
}

/// The scute that a record says.
pub open spec fn record_scute(fields: Seq<(Seq<char>, Seq<char>)>) -> ScuteView {
    ScuteView {
        cow: field_of(fields, "cow"@),
        verity: field_of(fields, "verity"@),
        salt: field_of(fields, "salt"@),
    }
}

/// The manifest that a document with the two keys of a manifest says.
pub open spec fn doc_output(doc: Seq<(Seq<char>, YamlNodeView)>) -> OutputView {
    OutputView {
        scutes: doc[0].1->Records_0.map_values(
            |r: Seq<(Seq<char>, Seq<char>)>| record_scute(r),
        ),
        pmi: match doc[1].1 {
            YamlNodeView::Text(name) => Some(name),
            _ => None,
        },
    }
}

/// The document of a manifest says that manifest.
pub proof fn law_manifest_reads_back(out: OutputView)
    ensures
        doc_output(output_doc(out)) == out,
{
    let read = doc_output(output_doc(out));
    assert forall|i: int| 0 <= i < out.scutes.len() implies read.scutes[i] == out.scutes[i] by {
        lemma_record_reads_back(out.scutes[i]);
    }
    assert(read.scutes =~= out.scutes);
}

proof fn lemma_record_reads_back(s: ScuteView)
    ensures
        record_scute(scute_record(s)) == s,
{
    reveal_strlit("cow");
    reveal_strlit("verity");
    reveal_strlit("salt");
    assert("cow"@[0] != "verity"@[0] && "cow"@[0] != "salt"@[0] && "verity"@[0] != "salt"@[0]);
    let r = scute_record(s);
    let second = r.drop_first();
    let third = second.drop_first();
    assert(second[0] == ("verity"@, s.verity));
    assert(third[0] == ("salt"@, s.salt));
    assert(field_of(second, "verity"@) == s.verity);
    assert(field_of(third, "salt"@) == s.salt);
    assert(field_of(second, "salt"@) == s.salt);
}

/// The root that a lock gives for a reference.
pub open spec fn locked_root(
    lock: Seq<(Seq<char>, LockEntryView)>,
    reference: Seq<char>,
) -> Option<Seq<char>> {
    match found(lock, reference) {
        Some(entry) => after_prefix(entry.carapace, "sha256:"@),
        None => None,
    }
}

/// The root that a lock gives for a reference.
fn root_in_lock(lock: &RefsLock, reference: &str) -> (r: Option<String>)
    ensures
        match r {
            Some(root) => locked_root(lock@, reference@) == Some(root@),
            None => locked_root(lock@, reference@) is None,
        },
{
    match lock.get(reference) {
        Some(entry) => match strip_prefix(entry.carapace.as_str(), "sha256:") {
            Some(root) => Some(root.to_owned()),
            None => None,
        },
        None => None,
    }
}

/// The root of a build's source.
pub open spec fn source_root_outcome(
    lock: Seq<(Seq<char>, LockEntryView)>,
    from: Seq<char>,
) -> Result<Seq<char>, Seq<char>> {
    match locked_root(lock, from) {
        Some(root) => Ok(root),
        None => Err("refs.lock has no carapace root for `"@ + from + "`"@),
    }
}

/// Looks up the root of the carapace that a `carapace.yaml` derives from.
pub fn source_root(lock: &RefsLock, from: &str) -> (r: Result<String, String>)
    ensures
        text_shown(r) == source_root_outcome(lock@, from@),
{
    match root_in_lock(lock, from) {
        Some(root) => Ok(root),
        None => {
            let mut e: String = "refs.lock has no carapace root for `".to_owned();
            e.append(from);
            e.append("`");
            Err(e)
        },
    }
}

/// The root of a PMI's source, or none where it is built on the carapace just made.
pub open spec fn pmi_root_outcome(
    lock: Seq<(Seq<char>, LockEntryView)>,
    from: Option<Seq<char>>,
) -> Result<Option<Seq<char>>, Seq<char>> {
    match from {
        None => Ok(None),
        Some(reference) => match locked_root(lock, reference) {
            Some(root) => Ok(Some(root)),
            None => Err("refs.lock has no root for pmi.yaml from `"@ + reference + "`"@),
        },
    }
}

/// An optional text, taken as characters.
pub open spec fn text_of(t: Option<String>) -> Option<Seq<char>> {
    match t {
        Some(t) => Some(t@),
        None => None,
    }
}

/// An optional text, or a message, taken as characters.
pub open spec fn optional_shown(r: Result<Option<String>, String>) -> Result<
    Option<Seq<char>>,
    Seq<char>,
> {
    match r {
        Ok(t) => Ok(text_of(t)),
        Err(e) => Err(e@),
    }
}

/// Looks up the root of the carapace that a `pmi.yaml` builds on, where it names one.
pub fn pmi_root(lock: &RefsLock, from: &Option<String>) -> (r: Result<Option<String>, String>)
    ensures
        optional_shown(r) == pmi_root_outcome(lock@, text_of(*from)),
{
    match from {
        None => Ok(None),
        Some(reference) => match root_in_lock(lock, reference.as_str()) {
            Some(root) => Ok(Some(root)),
            None => {
                let mut e: String = "refs.lock has no root for pmi.yaml from `".to_owned();
                e.append(reference.as_str());
                e.append("`");
                Err(e)
            },
        },
    }
}

/// The scutes of a build that starts at `source` and makes scutes with the given roots: each is
/// salted with the root before it.
pub open spec fn chained(source: Seq<u8>, roots: Seq<Seq<u8>>) -> Seq<ScuteView> {
    Seq::new(
        roots.len(),
        |i: int|
            ScuteView {
                cow: cow_name_of(i as nat),
                verity: verity_name_of(i as nat),
                salt: hex_of(if i == 0 {
                    source
                } else {
                    roots[i - 1]
                }),
            },
    )
}

/// The root that the next scute is salted with.
pub open spec fn top_root(source: Seq<u8>, roots: Seq<Seq<u8>>) -> Seq<u8> {
    if roots.len() == 0 {
        source
    } else {
        roots.last()
    }
}

/// The chain of scutes that a build has made so far.
pub struct BuildChain {
    parent_root: [u8; 32],
    scutes: Vec<ScuteOut>,
    source: Ghost<Seq<u8>>,
    roots: Ghost<Seq<Seq<u8>>>,
}

impl BuildChain {
    /// Whether what is kept is the chain of the roots so far.
    pub closed spec fn wf(&self) -> bool {
        &&& scutes_view(self.scutes@) == chained(self.source@, self.roots@)
        &&& self.parent_root@ == top_root(self.source@, self.roots@)
    }

    /// The root of the source.
    pub closed spec fn from(&self) -> Seq<u8> {
        self.source@
    }

    /// The roots of the scutes made so far.
    pub closed spec fn made(&self) -> Seq<Seq<u8>> {
        self.roots@
    }

    /// A chain without scutes, on a source with root `source_root`.
    pub fn new(source_root: [u8; 32]) -> (r: BuildChain)
        ensures
            r.wf(),
            r.from() == source_root@,
            r.made() == Seq::<Seq<u8>>::empty(),
    {
        let r: BuildChain = BuildChain {
            parent_root: source_root,
            scutes: Vec::new(),
            source: Ghost(source_root@),
            roots: Ghost(Seq::empty()),
        };
        assert(scutes_view(r.scutes@) =~= chained(r.source@, r.roots@));
        r
    }

    /// The salt for the next scute: the root before it.
    pub fn salt(&self) -> (r: [u8; 32])
        requires
            self.wf(),
        ensures
            r@ == top_root(self.from(), self.made()),
    {
        self.parent_root
    }

    /// How many scutes were made, and so the index of the next one.
    pub fn index(&self) -> (r: usize)
        requires
            self.wf(),
        ensures
            r == self.made().len(),
    {
        assert(scutes_view(self.scutes@).len() == chained(self.source@, self.roots@).len());
        self.scutes.len()
    }

    /// Adds the next scute, whose seal has root `root`.
    pub fn add(&mut self, root: [u8; 32])
        requires
            old(self).wf(),
        ensures
            final(self).wf(),
            final(self).from() == old(self).from(),
            final(self).made() == old(self).made().push(root@),
    {
        let index: usize = self.index();
        let ghost was = scutes_view(self.scutes@);
        let scute: ScuteOut = ScuteOut {
            cow: cow_name(index),
            verity: verity_name(index),
            salt: hex_encode(self.parent_root.as_slice()),
        };
        let ghost made = scute@;
        self.scutes.push(scute);
        self.parent_root = root;
        self.roots = Ghost(self.roots@.push(root@));
        assert(scutes_view(self.scutes@) =~= was.push(made));
        assert(was.push(made) =~= chained(self.source@, self.roots@));
    }

    /// The root of the whole, in hexadecimal.
    pub fn carapace_root(&self) -> (r: String)
        requires
            self.wf(),
        ensures
            r@ == hex_of(top_root(self.from(), self.made())),
    {
        hex_encode(self.parent_root.as_slice())
    }

    /// The manifest of the build.
    pub fn finish(self, pmi: Option<String>) -> (r: BuildOutput)
        requires
            self.wf(),
        ensures
            r@ == (OutputView { scutes: chained(self.from(), self.made()), pmi: text_of(pmi) }),
            r.pmi == pmi,
    {
        BuildOutput { scutes: self.scutes, pmi }
    }
}

/// Every scute is salted with the root of the one before it, and the first with the root of the
/// source, so that each root binds all that came before; the names count up from zero.
pub proof fn law_salts_chain(source: Seq<u8>, roots: Seq<Seq<u8>>, i: int)
    requires
        0 <= i < roots.len(),
    ensures
        chained(source, roots).len() == roots.len(),
        chained(source, roots)[i].salt == hex_of(top_root(source, roots.take(i))),
        chained(source, roots)[i].cow == cow_name_of(i as nat),
        chained(source, roots)[i].verity == verity_name_of(i as nat),
{
}

/// The first scute is salted with the root of the source and each other with the root of the scute
/// before it; the salt reads back from the manifest. The next scute is salted with the last root,
/// or with that of the source where there is none yet.
pub proof fn law_salts_read_back(source: Seq<u8>, roots: Seq<Seq<u8>>, root: Seq<u8>, i: int)
    ensures
        roots.len() > 0 ==> hex_outcome(encode_utf8(chained(source, roots)[0].salt)) == Ok::<
            Seq<u8>,
            HexFault,
        >(source),
        0 < i < roots.len() ==> hex_outcome(encode_utf8(chained(source, roots)[i].salt)) == Ok::<
            Seq<u8>,
            HexFault,
        >(roots[i - 1]),
        top_root(source, Seq::empty()) == source,
        top_root(source, roots.push(root)) == root,
        hex_outcome(encode_utf8(hex_of(top_root(source, roots.push(root))))) == Ok::<
            Seq<u8>,
            HexFault,
        >(root),
{
    law_hex_reads_back(source);
    law_hex_reads_back(root);
    if 0 < i < roots.len() {
        law_hex_reads_back(roots[i - 1]);
    }
}

/// A further scute changes nothing about those before it.
pub proof fn law_chain_only_grows(source: Seq<u8>, roots: Seq<Seq<u8>>, root: Seq<u8>)
    ensures
        chained(source, roots.push(root)).len() == chained(source, roots).len() + 1,
        chained(source, roots.push(root)).drop_last() == chained(source, roots),
{
    assert(chained(source, roots.push(root)).drop_last() =~= chained(source, roots));
}

/// The root of a source is what follows `sha256:` in the carapace that the lock has for the
/// reference; a reference that the lock does not have, or without a digest, has no root.
pub proof fn law_roots_come_from_the_lock(
    lock: Seq<(Seq<char>, LockEntryView)>,
    reference: Seq<char>,
    root: Seq<char>,
)
    ensures
        source_root_outcome(lock, reference) == Ok::<Seq<char>, Seq<char>>(root) <==> (found(
            lock,
            reference,
        ) matches Some(entry) && entry.carapace == "sha256:"@ + root),
        found(lock, reference) is None ==> source_root_outcome(lock, reference) is Err,
        pmi_root_outcome(lock, None) == Ok::<Option<Seq<char>>, Seq<char>>(None),
        pmi_root_outcome(lock, Some(reference)) == Ok::<Option<Seq<char>>, Seq<char>>(Some(root))
            <==> (found(lock, reference) matches Some(entry) && entry.carapace == "sha256:"@
            + root),
        pmi_root_outcome(lock, Some(reference)) != Ok::<Option<Seq<char>>, Seq<char>>(None),
        source_root_outcome(lock, reference) is Err ==> pmi_root_outcome(lock, Some(reference))
            is Err,
{
    if let Some(entry) = found(lock, reference) {
        law_prefix_and_rest_make_the_text("sha256:"@, entry.carapace, root);
    }
}

/// A manifest is written with two keys, the scutes and the PMI, and each scute with its chunks, its
/// seal and its salt by name.
pub proof fn law_manifest_is_written_by_name(out: OutputView, i: int)
    ensures
        ({
            let doc = output_doc(out);
            &&& doc.len() == 2
            &&& doc[0].0 == "scutes"@ && doc[1].0 == "pmi"@
            &&& out.pmi is None ==> doc[1].1 is Null
            &&& out.pmi matches Some(name) ==> doc[1].1 == YamlNodeView::Text(name)
            &&& doc[0].1 matches YamlNodeView::Records(records) && records.len() == out.scutes.len()
                && (0 <= i < out.scutes.len() ==> records[i].len() == 3 && field_of(
                records[i],
                "cow"@,
            ) == out.scutes[i].cow && field_of(records[i], "verity"@) == out.scutes[i].verity
                && field_of(records[i], "salt"@) == out.scutes[i].salt)
        }),
{
    if 0 <= i < out.scutes.len() {
        lemma_record_reads_back(out.scutes[i]);
        let s = out.scutes[i];
        assert(record_scute(scute_record(s)).cow == s.cow);
    }
}

} // verus!
