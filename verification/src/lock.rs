//! The lock file: which content each reference stands for.

use vstd::prelude::*;

use crate::order::{
    before, codes, lemma_before_asymmetric, lemma_before_irreflexive, lemma_before_total,
    lemma_before_transitive, lemma_codes_injective, text_before,
};
use crate::quote::{debug_text, quoted};
use crate::recipe::{blank, checked, is_blank, RecipeError};
use crate::text::{same, strip_prefix};
use crate::yaml::{
    doc_fits, doc_view, field_of, fields_view, fits, write_yaml, yaml_text, YamlNode, YamlNodeView,
};

verus! {

/// What one reference stands for: two commitments to the same content.
#[derive(Debug, Clone, PartialEq, Eq)]
pub struct LockEntry {
    /// The SHA-256 of the manifest (`sha256:...`).
    pub manifest: String,
    /// The dm-verity root over the scutes (`sha256:...`).
    pub carapace: String,
}

/// What a [`LockEntry`] holds.
pub struct LockEntryView {
    pub manifest: Seq<char>,
    pub carapace: Seq<char>,
}

impl View for LockEntry {
    type V = LockEntryView;

    open spec fn view(&self) -> LockEntryView {
        LockEntryView { manifest: self.manifest@, carapace: self.carapace@ }
    }
}

/// Entries with their references, in order.
pub open spec fn entries_of(entries: Seq<(String, LockEntry)>) -> Seq<(Seq<char>, LockEntryView)> {
    entries.map_values(|e: (String, LockEntry)| (e.0@, e.1@))
}

/// The lock file: its references in order, each with its entry.
#[derive(Debug, Clone)]
pub struct RefsLock {
    pub entries: Vec<(String, LockEntry)>,
}

impl View for RefsLock {
    type V = Seq<(Seq<char>, LockEntryView)>;

    open spec fn view(&self) -> Seq<(Seq<char>, LockEntryView)> {
        entries_of(self.entries@)
    }
}

/// Whether the references stand in order, so that none occurs twice.
pub open spec fn in_order(lock: Seq<(Seq<char>, LockEntryView)>) -> bool {
    forall|i: int, j: int|
        0 <= i < j < lock.len() ==> before(
            codes((#[trigger] lock[i]).0),
            codes((#[trigger] lock[j]).0),
        )
}

/// The first entry for a reference.
pub open spec fn found(lock: Seq<(Seq<char>, LockEntryView)>, reference: Seq<char>) -> Option<
    LockEntryView,
>
    decreases lock.len(),
{
    if lock.len() == 0 {
        None
    } else if lock[0].0 == reference {
        Some(lock[0].1)
    } else {
        found(lock.drop_first(), reference)
    }
}

/// A lock with an entry put in its place; an entry for the same reference is replaced.
pub open spec fn with_entry(
    lock: Seq<(Seq<char>, LockEntryView)>,
    reference: Seq<char>,
    entry: LockEntryView,
) -> Seq<(Seq<char>, LockEntryView)>
    decreases lock.len(),
{
    if lock.len() == 0 {
        seq![(reference, entry)]
    } else if before(codes(lock[0].0), codes(reference)) {
        seq![lock[0]] + with_entry(lock.drop_first(), reference, entry)
    } else if lock[0].0 == reference {
        seq![(reference, entry)] + lock.drop_first()
    } else {
        seq![(reference, entry)] + lock
    }
}

/// The lock that holds the given entries; of two entries for one reference the later one stays.
pub open spec fn gathered(pairs: Seq<(Seq<char>, LockEntryView)>) -> Seq<
    (Seq<char>, LockEntryView),
>
    decreases pairs.len(),
{
    if pairs.len() == 0 {
        Seq::empty()
    } else {
        with_entry(gathered(pairs.drop_last()), pairs.last().0, pairs.last().1)
    }
}

/// Whether a text is a SHA-256 digest: the scheme, and something after it.
pub open spec fn is_digest(value: Seq<char>) -> bool {
    "sha256:"@.is_prefix_of(value) && value.len() > "sha256:"@.len()
}

/// The message for a field that holds no digest.
pub open spec fn digest_fault(reference: Seq<char>, field: Seq<char>, value: Seq<char>) -> Seq<
    char,
> {
    "refs.lock: "@ + reference + ": `"@ + field + "` is not a sha256 digest: "@ + debug_text(value)
}

/// What is wrong with an entry, if anything.
pub open spec fn entry_fault(reference: Seq<char>, entry: LockEntryView) -> Option<Seq<char>> {
    if !is_digest(entry.manifest) {
        Some(digest_fault(reference, "manifest"@, entry.manifest))
    } else if !is_digest(entry.carapace) {
        Some(digest_fault(reference, "carapace"@, entry.carapace))
    } else {
        None
    }
}

/// What is wrong with the first entry with which something is.
pub open spec fn lock_fault(lock: Seq<(Seq<char>, LockEntryView)>) -> Option<Seq<char>>
    decreases lock.len(),
{
    if lock.len() == 0 {
        None
    } else if entry_fault(lock[0].0, lock[0].1) is Some {
        entry_fault(lock[0].0, lock[0].1)
    } else {
        lock_fault(lock.drop_first())
    }
}

fn holds_digest(value: &str) -> (r: bool)
    ensures
        r == is_digest(value@),
{
    match strip_prefix(value, "sha256:") {
        Some(rest) => rest.unicode_len() > 0,
        None => false,
    }
}

fn digest_fault_text(reference: &str, field: &str, value: &str) -> (r: String)
    ensures
        r@ == digest_fault(reference@, field@, value@),
{
    let mut e: String = "refs.lock: ".to_owned();
    e.append(reference);
    e.append(": `");
    e.append(field);
    e.append("` is not a sha256 digest: ");
    e.append(quoted(value).as_str());
    e
}

impl LockEntry {
    /// Checks that both fields hold digests.
    pub fn validate(&self, reference: &str) -> (r: Result<(), RecipeError>)
        ensures
            checked(r, entry_fault(reference@, self@)),
    {
        if !holds_digest(self.manifest.as_str()) {
            return Err(
                RecipeError::Invalid(
                    digest_fault_text(reference, "manifest", self.manifest.as_str()),
                ),
            );
        }
        if !holds_digest(self.carapace.as_str()) {
            return Err(
                RecipeError::Invalid(
                    digest_fault_text(reference, "carapace", self.carapace.as_str()),
                ),
            );
        }
        Ok(())
    }
}

impl Default for RefsLock {
    /// The lock without entries.
    fn default() -> (r: RefsLock)
        ensures
            r@ == Seq::<(Seq<char>, LockEntryView)>::empty(),
            in_order(r@),
    {
        let r: RefsLock = RefsLock { entries: Vec::new() };
        assert(r@ =~= Seq::empty());
        r
    }
}

/// The document that a lock is written as.
pub open spec fn lock_doc(lock: Seq<(Seq<char>, LockEntryView)>) -> Seq<
    (Seq<char>, YamlNodeView),
> {
    lock.map_values(
        |e: (Seq<char>, LockEntryView)|
            (
                e.0,
                YamlNodeView::Fields(
                    seq![("manifest"@, e.1.manifest), ("carapace"@, e.1.carapace)],
                ),
            ),
    )
}

impl RefsLock {
    /// The entry for a reference, exactly as a recipe writes it.
    pub fn get(&self, reference: &str) -> (r: Option<&LockEntry>)
        ensures
            match r {
                Some(entry) => found(self@, reference@) == Some(entry@),
                None => found(self@, reference@) is None,
            },
    {
        let mut i: usize = 0;
        assert(self@.skip(0) =~= self@);
        while i < self.entries.len()
            invariant
                i <= self.entries@.len(),
                found(self@.skip(i as int), reference@) == found(self@, reference@),
            decreases self.entries@.len() - i,
        {
            assert(self@.skip(i as int).drop_first() =~= self@.skip(i + 1));
            if same(self.entries[i].0.as_str(), reference) {
                return Some(&self.entries[i].1);
            }
            i = i + 1;
        }
        None
    }

    /// Puts an entry in its place.
    pub fn insert(&mut self, reference: String, entry: LockEntry)
        ensures
            final(self)@ == with_entry(old(self)@, reference@, entry@),
            in_order(old(self)@) ==> in_order(final(self)@),
    {
        proof {
            if in_order(self@) {
                law_lock_finds_what_was_put(self@, reference@, entry@);
            }
        }
        let ghost was = self@;
        let mut i: usize = 0;
        assert(was.skip(0) =~= was);
        assert(was.take(0) + with_entry(was, reference@, entry@) =~= with_entry(
            was,
            reference@,
            entry@,
        ));
        while i < self.entries.len() && text_before(self.entries[i].0.as_str(), reference.as_str())
            invariant
                i <= self.entries@.len(),
                self@ == was,
                was.take(i as int) + with_entry(was.skip(i as int), reference@, entry@)
                    == with_entry(was, reference@, entry@),
            decreases self.entries@.len() - i,
        {
            let ghost rest = was.skip(i as int);
            assert(rest.drop_first() =~= was.skip(i + 1));
            assert(was.take(i + 1) + with_entry(was.skip(i + 1), reference@, entry@) =~= was.take(
                i as int,
            ) + (seq![rest[0]] + with_entry(was.skip(i + 1), reference@, entry@)));
            i = i + 1;
        }
        let ghost rest = was.skip(i as int);
        if i < self.entries.len() && same(self.entries[i].0.as_str(), reference.as_str()) {
            assert(rest[0].0 == reference@);
            self.entries.set(i, (reference, entry));
            assert(self@ =~= was.take(i as int) + (seq![(reference@, entry@)]
                + rest.drop_first()));
        } else {
            self.entries.insert(i, (reference, entry));
            assert(self@ =~= was.take(i as int) + (seq![(reference@, entry@)] + rest));
            assert(rest.len() == 0 ==> seq![(reference@, entry@)] + rest =~= seq![
                (reference@, entry@),
            ]);
        }
    }

    /// Takes the text of a lock file and the outcome of reading it as YAML, and checks the
    /// entries. A blank file is a lock without entries.
    pub fn parse(yaml: &str, decoded: Result<Vec<(String, LockEntry)>, serde_yaml::Error>) -> (r:
        Result<RefsLock, RecipeError>)
        ensures
            if blank(yaml@) {
                r matches Ok(lock) && lock@ == Seq::<(Seq<char>, LockEntryView)>::empty()
                    && in_order(lock@)
            } else {
                match decoded {
                    Err(e) => r == Err::<RefsLock, RecipeError>(RecipeError::Parse(e)),
                    Ok(pairs) => match lock_fault(gathered(entries_of(pairs@))) {
                        None => r matches Ok(lock) && lock@ == gathered(entries_of(pairs@))
                            && in_order(lock@),
                        Some(text) => r matches Err(RecipeError::Invalid(e)) && e@ == text,
                    },
                }
            },
    {
        let mut lock: RefsLock = RefsLock::default();
        if is_blank(yaml) {
            return Ok(lock);
        }
        let pairs: Vec<(String, LockEntry)> = match decoded {
            Ok(pairs) => pairs,
            Err(e) => return Err(RecipeError::Parse(e)),
        };
        let ghost given = entries_of(pairs@);
        let mut rest: Vec<(String, LockEntry)> = reversed(pairs);
        assert(given.take(0) =~= Seq::empty());
        while rest.len() > 0
            invariant
                rest@.len() <= given.len(),
                entries_of(rest@) == given.skip(given.len() - rest@.len()).reverse(),
                lock@ == gathered(given.take(given.len() - rest@.len())),
            decreases rest@.len(),
        {
            let ghost k = given.len() - rest@.len();
            let ghost left = entries_of(rest@);
            assert(left.last() == given[k]);
            assert(given.take(k + 1).drop_last() =~= given.take(k));
            if let Some((reference, entry)) = rest.pop() {
                assert(entries_of(rest@) =~= left.drop_last());
                assert(left.drop_last() =~= given.skip(k + 1).reverse());
                lock.insert(reference, entry);
            }
        }
        assert(given.take(given.len() as int) =~= given);
        proof {
            law_gathered_lock_is_in_order(given, Seq::empty());
        }
        match lock.validate() {
            Ok(_) => Ok(lock),
            Err(e) => Err(e),
        }
    }

    /// Checks every entry, in order.
    fn validate(&self) -> (r: Result<(), RecipeError>)
        ensures
            checked(r, lock_fault(self@)),
    {
        let mut i: usize = 0;
        assert(self@.skip(0) =~= self@);
        while i < self.entries.len()
            invariant
                i <= self.entries@.len(),
                lock_fault(self@.skip(i as int)) == lock_fault(self@),
            decreases self.entries@.len() - i,
        {
            assert(self@.skip(i as int)[0] == self@[i as int]);
            assert(self@.skip(i as int).drop_first() =~= self@.skip(i + 1));
            match self.entries[i].1.validate(self.entries[i].0.as_str()) {
                Ok(_) => {},
                Err(e) => return Err(e),
            }
            i = i + 1;
        }
        Ok(())
    }

    /// The lock as a document.
    fn doc(&self) -> (doc: Vec<(String, YamlNode)>)
        ensures
            doc_view(doc@) == lock_doc(self@),
    {
        let mut doc: Vec<(String, YamlNode)> = Vec::new();
        let mut i: usize = 0;
        assert(doc_view(doc@) =~= lock_doc(self@).take(0));
        while i < self.entries.len()
            invariant
                i <= self.entries@.len(),
                doc_view(doc@) == lock_doc(self@).take(i as int),
            decreases self.entries@.len() - i,
        {
            let ghost was = doc@;
            let ghost want = lock_doc(self@)[i as int];
            let fields: Vec<(String, String)> = vec![
                ("manifest".to_owned(), self.entries[i].1.manifest.clone()),
                ("carapace".to_owned(), self.entries[i].1.carapace.clone()),
            ];
            assert(fields_view(fields@) =~= want.1->Fields_0);
            let node: YamlNode = YamlNode::Fields(fields);
            let ghost shown = node@;
            doc.push((self.entries[i].0.clone(), node));
            i = i + 1;
            assert(doc_view(doc@) =~= doc_view(was).push((want.0, shown)));
            assert(lock_doc(self@).take(i as int) =~= lock_doc(self@).take(i - 1).push(want));
        }
        assert(lock_doc(self@).take(i as int) =~= lock_doc(self@));
        doc
    }

    /// Whether the lock is small enough to be written as YAML.
    pub fn fits_yaml(&self) -> (r: bool)
        ensures
            r == doc_fits(lock_doc(self@)),
    {
        fits(&self.doc())
    }

    /// The lock as YAML: its references in the order in which the lock holds them, each with its
    /// two digests. A lock that stands in order is written in order.
    pub fn to_yaml(&self) -> (r: Result<String, RecipeError>)
        requires
            doc_fits(lock_doc(self@)),
        ensures
            r is Ok,
            (r->Ok_0)@ == yaml_text(lock_doc(self@)),
    {
        match write_yaml(&self.doc()) {
            Ok(text) => Ok(text),
            Err(e) => Err(RecipeError::Parse(e)),
        }
    }
}

/// The same items from the last to the first.
fn reversed(items: Vec<(String, LockEntry)>) -> (r: Vec<(String, LockEntry)>)
    ensures
        r@ == items@.reverse(),
        entries_of(r@) == entries_of(items@).reverse(),
{
    let mut items: Vec<(String, LockEntry)> = items;
    let ghost given = items@;
    let mut r: Vec<(String, LockEntry)> = Vec::new();
    while items.len() > 0
        invariant
            items@.len() <= given.len(),
            items@ == given.take(items@.len() as int),
            r@ == given.skip(items@.len() as int).reverse(),
        decreases items@.len(),
    {
        let ghost n = items@.len();
        if let Some(item) = items.pop() {
            r.push(item);
            assert(items@ =~= given.take(n - 1));
            assert(r@ =~= given.skip(n - 1).reverse());
        }
    }
    assert(given.skip(0) =~= given);
    assert(entries_of(r@) =~= entries_of(given).reverse());
    r
}

/// A reference that was put into a lock that stands in order is found with its new entry, and
/// the lock still stands in order.
pub proof fn law_lock_finds_what_was_put(
    lock: Seq<(Seq<char>, LockEntryView)>,
    reference: Seq<char>,
    entry: LockEntryView,
)
    requires
        in_order(lock),
    ensures
        in_order(with_entry(lock, reference, entry)),
        found(with_entry(lock, reference, entry), reference) == Some(entry),
    decreases lock.len(),
{
    let put = with_entry(lock, reference, entry);
    lemma_keys_of_put(lock, reference, entry);
    if lock.len() == 0 {
    } else if before(codes(lock[0].0), codes(reference)) {
        let rest = lock.drop_first();
        lemma_rest_in_order(lock);
        law_lock_finds_what_was_put(rest, reference, entry);
        lemma_keys_of_put(rest, reference, entry);
        let more = with_entry(rest, reference, entry);
        lemma_before_irreflexive(codes(lock[0].0));
        assert(put.drop_first() =~= more);
        assert forall|i: int, j: int| 0 <= i < j < put.len() implies before(
            codes((#[trigger] put[i]).0),
            codes((#[trigger] put[j]).0),
        ) by {
            assert(put[j] == more[j - 1]);
            if i > 0 {
                assert(put[i] == more[i - 1]);
            } else if more[j - 1].0 != reference {
                let k = choose|k: int| 0 <= k < rest.len() && (#[trigger] rest[k]).0 == more[j
                    - 1].0;
                assert(rest[k] == lock[k + 1]);
            }
        }
    } else if lock[0].0 == reference {
        assert forall|i: int, j: int| 0 <= i < j < put.len() implies before(
            codes((#[trigger] put[i]).0),
            codes((#[trigger] put[j]).0),
        ) by {
            assert(put[i].0 == lock[i].0 && put[j].0 == lock[j].0);
        }
    } else {
        lemma_before_total(codes(lock[0].0), codes(reference));
        if codes(lock[0].0) == codes(reference) {
            lemma_codes_injective(lock[0].0, reference);
        }
        assert forall|i: int, j: int| 0 <= i < j < put.len() implies before(
            codes((#[trigger] put[i]).0),
            codes((#[trigger] put[j]).0),
        ) by {
            assert(put[j] == lock[j - 1]);
            if i > 0 {
                assert(put[i] == lock[i - 1]);
            } else if j > 1 {
                lemma_before_transitive(
                    codes(reference),
                    codes(lock[0].0),
                    codes(lock[j - 1].0),
                );
            }
        }
    }
}

/// Every reference of a lock into which one was put is that one or an old one.
proof fn lemma_keys_of_put(
    lock: Seq<(Seq<char>, LockEntryView)>,
    reference: Seq<char>,
    entry: LockEntryView,
)
    ensures
        forall|i: int|
            0 <= i < with_entry(lock, reference, entry).len() ==> (#[trigger] with_entry(
                lock,
                reference,
                entry,
            )[i]).0 == reference || exists|k: int|
                0 <= k < lock.len() && (#[trigger] lock[k]).0 == with_entry(
                    lock,
                    reference,
                    entry,
                )[i].0,
    decreases lock.len(),
{
    let put = with_entry(lock, reference, entry);
    if lock.len() == 0 {
    } else if before(codes(lock[0].0), codes(reference)) {
        let rest = lock.drop_first();
        lemma_keys_of_put(rest, reference, entry);
        let more = with_entry(rest, reference, entry);
        assert forall|i: int| 0 <= i < put.len() implies (#[trigger] put[i]).0 == reference
            || exists|k: int| 0 <= k < lock.len() && (#[trigger] lock[k]).0 == put[i].0 by {
            if i == 0 {
                assert(put[0] == lock[0]);
            } else {
                assert(put[i] == more[i - 1]);
                if more[i - 1].0 != reference {
                    let k = choose|k: int| 0 <= k < rest.len() && (#[trigger] rest[k]).0 == more[i
                        - 1].0;
                    assert(rest[k] == lock[k + 1]);
                }
            }
        }
    } else {
        assert forall|i: int| 0 <= i < put.len() implies (#[trigger] put[i]).0 == reference
            || exists|k: int| 0 <= k < lock.len() && (#[trigger] lock[k]).0 == put[i].0 by {
            if i > 0 {
                assert(put[i] == lock[i] || put[i] == lock[i - 1]);
            }
        }
    }
}

/// Putting one reference into a lock leaves what is found for every other as it was.
pub proof fn law_lock_keeps_the_others(
    lock: Seq<(Seq<char>, LockEntryView)>,
    reference: Seq<char>,
    entry: LockEntryView,
    other: Seq<char>,
)
    requires
        other != reference,
    ensures
        found(with_entry(lock, reference, entry), other) == found(lock, other),
    decreases lock.len(),
{
    let put = with_entry(lock, reference, entry);
    if lock.len() == 0 {
        assert(put.drop_first() =~= lock);
    } else if before(codes(lock[0].0), codes(reference)) {
        law_lock_keeps_the_others(lock.drop_first(), reference, entry, other);
        assert(put.drop_first() =~= with_entry(lock.drop_first(), reference, entry));
    } else if lock[0].0 == reference {
        assert(put.drop_first() =~= lock.drop_first());
    } else {
        assert(put.drop_first() =~= lock);
    }
}

/// The entries of a lock file stand in the order of their references, however the file gave
/// them, and of two entries for one reference the later one counts.
pub proof fn law_gathered_lock_is_in_order(
    pairs: Seq<(Seq<char>, LockEntryView)>,
    reference: Seq<char>,
)
    ensures
        in_order(gathered(pairs)),
        found(gathered(pairs), reference) == last_for(pairs, reference),
    decreases pairs.len(),
{
    if pairs.len() > 0 {
        let front = pairs.drop_last();
        law_gathered_lock_is_in_order(front, reference);
        law_lock_finds_what_was_put(gathered(front), pairs.last().0, pairs.last().1);
        if pairs.last().0 != reference {
            law_lock_keeps_the_others(gathered(front), pairs.last().0, pairs.last().1, reference);
        }
    }
}

/// The entries that a document of records says, in order.
pub open spec fn doc_entries(doc: Seq<(Seq<char>, YamlNodeView)>) -> Seq<
    (Seq<char>, LockEntryView),
> {
    doc.map_values(
        |e: (Seq<char>, YamlNodeView)|
            (
                e.0,
                LockEntryView {
                    manifest: field_of(e.1->Fields_0, "manifest"@),
                    carapace: field_of(e.1->Fields_0, "carapace"@),
                },
            ),
    )
}

/// A lock that stands in order reads back: its document says its entries, and what these are
/// gathered to is the same lock.
pub proof fn law_lock_reads_back(lock: Seq<(Seq<char>, LockEntryView)>)
    requires
        in_order(lock),
    ensures
        doc_entries(lock_doc(lock)) == lock,
        gathered(doc_entries(lock_doc(lock))) == lock,
{
    lemma_gathers_to_itself(lock);
    let read = doc_entries(lock_doc(lock));
    assert forall|i: int| 0 <= i < lock.len() implies read[i] == lock[i] by {
        reveal_strlit("manifest");
        reveal_strlit("carapace");
        let entry = lock[i].1;
        let fields = seq![("manifest"@, entry.manifest), ("carapace"@, entry.carapace)];
        assert("manifest"@[0] != "carapace"@[0]);
        assert(fields.drop_first()[0] == ("carapace"@, entry.carapace));
        assert(field_of(fields, "manifest"@) == entry.manifest);
        assert(field_of(fields.drop_first(), "carapace"@) == entry.carapace);
    }
    assert(read =~= lock);
}

proof fn lemma_gathers_to_itself(lock: Seq<(Seq<char>, LockEntryView)>)
    requires
        in_order(lock),
    ensures
        gathered(lock) == lock,
    decreases lock.len(),
{
    if lock.len() == 0 {
        assert(lock =~= Seq::empty());
    } else {
        let front = lock.drop_last();
        assert forall|i: int, j: int| 0 <= i < j < front.len() implies before(
            codes((#[trigger] front[i]).0),
            codes((#[trigger] front[j]).0),
        ) by {
            assert(front[i] == lock[i] && front[j] == lock[j]);
        }
        lemma_gathers_to_itself(front);
        assert forall|i: int| 0 <= i < front.len() implies before(
            codes((#[trigger] front[i]).0),
            codes(lock.last().0),
        ) by {
            assert(front[i] == lock[i]);
        }
        lemma_put_last(front, lock.last().0, lock.last().1);
        assert(front.push(lock.last()) =~= lock);
    }
}

/// An entry whose reference comes after all others goes to the end.
proof fn lemma_put_last(
    lock: Seq<(Seq<char>, LockEntryView)>,
    reference: Seq<char>,
    entry: LockEntryView,
)
    requires
        forall|i: int|
            0 <= i < lock.len() ==> before(codes((#[trigger] lock[i]).0), codes(reference)),
    ensures
        with_entry(lock, reference, entry) == lock.push((reference, entry)),
    decreases lock.len(),
{
    if lock.len() == 0 {
        assert(lock.push((reference, entry)) =~= seq![(reference, entry)]);
    } else {
        let rest = lock.drop_first();
        assert(before(codes(lock[0].0), codes(reference)));
        assert forall|i: int| 0 <= i < rest.len() implies before(
            codes((#[trigger] rest[i]).0),
            codes(reference),
        ) by {
            assert(rest[i] == lock[i + 1]);
        }
        lemma_put_last(rest, reference, entry);
        assert(seq![lock[0]] + rest.push((reference, entry)) =~= lock.push((reference, entry)));
    }
}

/// Whether both fields of an entry hold digests.
pub open spec fn holds_digests(entry: LockEntryView) -> bool {
    is_digest(entry.manifest) && is_digest(entry.carapace)
}

/// A lock is accepted exactly where every entry holds two digests; else the message is about the
/// first entry that does not.
pub proof fn law_lock_is_accepted_exactly_on_digests(lock: Seq<(Seq<char>, LockEntryView)>)
    ensures
        lock_fault(lock) is None <==> forall|i: int|
            0 <= i < lock.len() ==> holds_digests((#[trigger] lock[i]).1),
        lock_fault(lock) is Some ==> exists|i: int|
            0 <= i < lock.len() && !holds_digests((#[trigger] lock[i]).1) && lock_fault(lock)
                == entry_fault(lock[i].0, lock[i].1) && forall|j: int|
                0 <= j < i ==> holds_digests((#[trigger] lock[j]).1),
    decreases lock.len(),
{
    if lock.len() > 0 {
        let rest = lock.drop_first();
        law_lock_is_accepted_exactly_on_digests(rest);
        if entry_fault(lock[0].0, lock[0].1) is Some {
            assert(!holds_digests(lock[0].1));
        } else {
            assert(holds_digests(lock[0].1));
            if lock_fault(rest) is Some {
                let k = choose|i: int|
                    0 <= i < rest.len() && !holds_digests((#[trigger] rest[i]).1) && lock_fault(
                        rest,
                    ) == entry_fault(rest[i].0, rest[i].1) && forall|j: int|
                        0 <= j < i ==> holds_digests((#[trigger] rest[j]).1);
                assert(lock[k + 1] == rest[k]);
                assert forall|j: int| 0 <= j < k + 1 implies holds_digests(
                    (#[trigger] lock[j]).1,
                ) by {
                    if j > 0 {
                        assert(rest[j - 1] == lock[j]);
                    }
                }
            } else {
                assert forall|i: int| 0 <= i < lock.len() implies holds_digests(
                    (#[trigger] lock[i]).1,
                ) by {
                    if i > 0 {
                        assert(rest[i - 1] == lock[i]);
                    }
                }
            }
        }
    }
}

/// The last entry for a reference.
pub open spec fn last_for(pairs: Seq<(Seq<char>, LockEntryView)>, reference: Seq<char>) -> Option<
    LockEntryView,
>
    decreases pairs.len(),
{
    if pairs.len() == 0 {
        None
    } else if pairs.last().0 == reference {
        Some(pairs.last().1)
    } else {
        last_for(pairs.drop_last(), reference)
    }
}

/// In a lock that was accepted, every entry holds two digests.
pub proof fn law_accepted_lock_holds_digests(
    lock: Seq<(Seq<char>, LockEntryView)>,
    reference: Seq<char>,
)
    requires
        lock_fault(lock) is None,
    ensures
        found(lock, reference) matches Some(entry) ==> is_digest(entry.manifest) && is_digest(
            entry.carapace,
        ),
    decreases lock.len(),
{
    if lock.len() > 0 {
        law_accepted_lock_holds_digests(lock.drop_first(), reference);
    }
}

/// A lock that stands in order is written with its references in order.
pub proof fn law_lock_is_written_in_order(lock: Seq<(Seq<char>, LockEntryView)>, i: int, j: int)
    requires
        in_order(lock),
        0 <= i < j < lock.len(),
    ensures
        lock_doc(lock).len() == lock.len(),
        before(codes(lock_doc(lock)[i].0), codes(lock_doc(lock)[j].0)),
{
    assert(before(codes(lock[i].0), codes(lock[j].0)));
}

/// Two locks that stand in order and give the same entries for the same references are the same,
/// so that a lock file changes only where an entry does.
pub proof fn law_lock_is_known_by_its_entries(
    a: Seq<(Seq<char>, LockEntryView)>,
    b: Seq<(Seq<char>, LockEntryView)>,
)
    requires
        in_order(a),
        in_order(b),
        forall|r: Seq<char>| #[trigger] found(a, r) == found(b, r),
    ensures
        a == b,
    decreases a.len(),
{
    if a.len() == 0 {
        if b.len() > 0 {
            assert(found(b, b[0].0) == Some(b[0].1));
            assert(found(a, b[0].0) is None);
        }
        assert(a =~= b);
    } else {
        let k = a[0].0;
        assert(found(a, k) == Some(a[0].1));
        assert(b.len() > 0);
        let l = b[0].0;
        assert(found(b, l) == Some(b[0].1));
        assert(found(a, l) is Some);
        let i = lemma_found_at(a, l);
        let j = lemma_found_at(b, k);
        if k != l {
            assert(before(codes(a[0].0), codes(a[i].0)));
            assert(before(codes(b[0].0), codes(b[j].0)));
            lemma_before_asymmetric(codes(k), codes(l));
        }
        assert(a[0] == b[0]);
        let p = a.drop_first();
        let q = b.drop_first();
        lemma_rest_in_order(a);
        lemma_rest_in_order(b);
        assert forall|r: Seq<char>| #[trigger] found(p, r) == found(q, r) by {
            if r == k {
                lemma_rest_lacks_first(a);
                lemma_rest_lacks_first(b);
            } else {
                assert(found(a, r) == found(p, r));
                assert(found(b, r) == found(q, r));
                assert(found(a, r) == found(b, r));
            }
        }
        law_lock_is_known_by_its_entries(p, q);
        assert(a =~= seq![a[0]] + p);
        assert(b =~= seq![b[0]] + q);
    }
}

proof fn lemma_found_at(lock: Seq<(Seq<char>, LockEntryView)>, reference: Seq<char>) -> (i: int)
    requires
        found(lock, reference) is Some,
    ensures
        0 <= i < lock.len(),
        lock[i].0 == reference,
    decreases lock.len(),
{
    if lock[0].0 == reference {
        0
    } else {
        let i = lemma_found_at(lock.drop_first(), reference);
        i + 1
    }
}

proof fn lemma_rest_in_order(lock: Seq<(Seq<char>, LockEntryView)>)
    requires
        in_order(lock),
        lock.len() > 0,
    ensures
        in_order(lock.drop_first()),
{
    let rest = lock.drop_first();
    assert forall|i: int, j: int| 0 <= i < j < rest.len() implies before(
        codes((#[trigger] rest[i]).0),
        codes((#[trigger] rest[j]).0),
    ) by {
        assert(rest[i] == lock[i + 1] && rest[j] == lock[j + 1]);
    }
}

proof fn lemma_rest_lacks_first(lock: Seq<(Seq<char>, LockEntryView)>)
    requires
        in_order(lock),
        lock.len() > 0,
    ensures
        found(lock.drop_first(), lock[0].0) is None,
{
    if found(lock.drop_first(), lock[0].0) is Some {
        let i = lemma_found_at(lock.drop_first(), lock[0].0);
        assert(before(codes(lock[0].0), codes(lock[i + 1].0)));
        lemma_before_irreflexive(codes(lock[0].0));
    }
}

/// A digest is `sha256:` with something after it, and nothing else is one.
pub proof fn law_digests_have_a_scheme(value: Seq<char>, rest: Seq<char>)
    ensures
        is_digest("sha256:"@ + rest) <==> rest.len() > 0,
        is_digest(value) ==> value == "sha256:"@ + value.skip(7) && value.len() > 7,
{
    reveal_strlit("sha256:");
    let whole = "sha256:"@ + rest;
    assert("sha256:"@.is_prefix_of(whole));
    if is_digest(value) {
        assert(value.take(7) =~= "sha256:"@);
        assert(value =~= value.take(7) + value.skip(7));
    }
}

/// Of two fields that hold no digest the message names the manifest; it names the reference and
/// the field, and quotes what the field holds.
pub proof fn law_faults_name_the_field(reference: Seq<char>, entry: LockEntryView)
    ensures
        !is_digest(entry.manifest) ==> entry_fault(reference, entry) == Some(
            "refs.lock: "@ + reference + ": `"@ + "manifest"@ + "` is not a sha256 digest: "@
                + debug_text(entry.manifest),
        ),
        is_digest(entry.manifest) && !is_digest(entry.carapace) ==> entry_fault(reference, entry)
            == Some(
            "refs.lock: "@ + reference + ": `"@ + "carapace"@ + "` is not a sha256 digest: "@
                + debug_text(entry.carapace),
        ),
        is_digest(entry.manifest) && is_digest(entry.carapace) ==> entry_fault(reference, entry)
            is None,
{
}

/// A lock is written with one key for each entry, its reference, and under it the manifest and the
/// carapace by name.
pub proof fn law_lock_is_written_by_name(lock: Seq<(Seq<char>, LockEntryView)>, i: int)
    requires
        0 <= i < lock.len(),
    ensures
        lock_doc(lock)[i].0 == lock[i].0,
        lock_doc(lock)[i].1 matches YamlNodeView::Fields(fields) && fields.len() == 2 && field_of(
            fields,
            "manifest"@,
        ) == lock[i].1.manifest && field_of(fields, "carapace"@) == lock[i].1.carapace,
{
    reveal_strlit("manifest");
    reveal_strlit("carapace");
    let entry = lock[i].1;
    let fields = seq![("manifest"@, entry.manifest), ("carapace"@, entry.carapace)];
    assert("manifest"@[0] != "carapace"@[0]);
    assert(fields.drop_first()[0] == ("carapace"@, entry.carapace));
    assert(field_of(fields.drop_first(), "carapace"@) == entry.carapace);
}

} // verus!
