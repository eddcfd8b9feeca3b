//! The history ledger: the state kept while walking the repository's commits
//! oldest first, and the diagnostics each observed object version raises.

use vstd::prelude::*;

use crate::okf::diagnostics::Diagnostic;
use crate::okf::yaml::{field, str_field, Yaml};
use crate::text::{push_str_chars, str_chars, str_eq, string_from_chars};

verus! {

/// What the ledger remembers of an object ID, as plain values.
pub struct EntryView {
    pub object_type: Seq<char>,
    pub lifecycle: Seq<char>,
    pub path: Seq<char>,
    pub verified: bool,
    pub hash: Seq<char>,
}

/// What the ledger remembers of an object ID: its type, lifecycle and path
/// when last seen, whether it was ever verified, and its last semantic hash.
pub struct LedgerEntry {
    pub object_type: String,
    pub lifecycle: String,
    pub path: String,
    pub verified: bool,
    pub hash: String,
}

impl View for LedgerEntry {
    type V = EntryView;

    open spec fn view(&self) -> EntryView {
        EntryView {
            object_type: self.object_type@,
            lifecycle: self.lifecycle@,
            path: self.path@,
            verified: self.verified,
            hash: self.hash@,
        }
    }
}

/// One object version found in a commit.
pub struct Observation {
    pub path: String,
    pub object_type: String,
    pub id: String,
    pub lifecycle: String,
    pub hash: String,
    pub verified: bool,
}

/// A text, or the empty text.
pub open spec fn text_or_empty(t: Option<Seq<char>>) -> Seq<char> {
    match t {
        Some(s) => s,
        None => Seq::empty(),
    }
}

/// What the history walk records of an object version at `file` of type
/// `object_type`: nothing when its front matter has no string `id`;
/// otherwise its path, type, ID, lifecycle and semantic hash (empty when
/// they are not strings), and whether it has a `verified` field.
pub open spec fn observation_matches(o: Observation, frontmatter: Yaml, file: Seq<char>, object_type: Seq<char>) -> bool {
    &&& o.path@ == file
    &&& o.object_type@ == object_type
    &&& Some(o.id@) == str_field(frontmatter, "id"@)
    &&& o.lifecycle@ == text_or_empty(str_field(frontmatter, "lifecycle"@))
    &&& o.hash@ == text_or_empty(str_field(frontmatter, "semantic_hash"@))
    &&& o.verified == field(frontmatter, "verified"@) is Some
}

/// The observation of an object version found at `file`.
pub fn observation_of(frontmatter: &Yaml, file: &str, object_type: &str) -> (r: Option<Observation>)
    ensures
        r is None <==> str_field(*frontmatter, "id"@) is None,
        r matches Some(o) ==> observation_matches(o, *frontmatter, file@, object_type@),
{
    let id = match frontmatter.get_str("id") {
        Some(i) => i,
        None => return None,
    };
    let lifecycle = match frontmatter.get_str("lifecycle") {
        Some(l) => l.to_owned(),
        None => String::new(),
    };
    let hash = match frontmatter.get_str("semantic_hash") {
        Some(h) => h.to_owned(),
        None => String::new(),
    };
    let verified = frontmatter.get("verified").is_some();
    Some(
        Observation {
            path: file.to_owned(),
            object_type: object_type.to_owned(),
            id: id.to_owned(),
            lifecycle,
            hash,
            verified,
        },
    )
}

/// The ledger and the sets of IDs that the walk keeps between commits.
pub struct History {
    ids: Vec<String>,
    entries: Vec<LedgerEntry>,
    previous: Vec<String>,
    observed: Vec<String>,
    deleted: Vec<String>,
}

/// No ID occurs twice.
pub open spec fn distinct(ids: Seq<Seq<char>>) -> bool {
    forall|i: int, j: int| 0 <= i < j < ids.len() ==> ids[i] != ids[j]
}

/// The views of a list of strings.
pub open spec fn string_views(v: Seq<String>) -> Seq<Seq<char>> {
    v.map_values(|s: String| s@)
}

/// A lifecycle may stay where it is or move forward: draft, then active,
/// then deprecated.
pub open spec fn legal_transition(previous: Seq<char>, next: Seq<char>) -> bool {
    ||| previous == "draft"@ && (next == "draft"@ || next == "active"@ || next == "deprecated"@)
    ||| previous == "active"@ && (next == "active"@ || next == "deprecated"@)
    ||| previous == "deprecated"@ && next == "deprecated"@
}

/// The position of a lifecycle in its order.
pub open spec fn lifecycle_rank(l: Seq<char>) -> int {
    if l == "draft"@ {
        0
    } else if l == "active"@ {
        1
    } else {
        2
    }
}

/// A lifecycle name.
pub open spec fn known_lifecycle(l: Seq<char>) -> bool {
    l == "draft"@ || l == "active"@ || l == "deprecated"@
}

/// Lifecycles never move backwards: a transition is legal exactly when both
/// ends are lifecycles and the second does not come before the first.
pub proof fn lifecycle_transitions_only_move_forward(previous: Seq<char>, next: Seq<char>)
    ensures
        legal_transition(previous, next) <==> (known_lifecycle(previous) && known_lifecycle(next)
            && lifecycle_rank(previous) <= lifecycle_rank(next)),
{
    reveal_strlit("draft");
    reveal_strlit("active");
    reveal_strlit("deprecated");
    assert("draft"@.len() == 5);
    assert("active"@.len() == 6);
    assert("deprecated"@.len() == 10);
}

pub open spec fn reused_message(id: Seq<char>) -> Seq<char> {
    "durable ID "@ + id + " was reused after deletion"@
}

pub open spec fn type_change_message(id: Seq<char>, from: Seq<char>, to: Seq<char>) -> Seq<char> {
    "ID "@ + id + " changed type from "@ + from + " to "@ + to
}

pub open spec fn lifecycle_message(id: Seq<char>, from: Seq<char>, to: Seq<char>) -> Seq<char> {
    "illegal lifecycle transition for "@ + id + ": "@ + from + " -> "@ + to
}

pub open spec fn mutated_message(id: Seq<char>) -> Seq<char> {
    "verified identity mutated for "@ + id
}

pub open spec fn moved_message(id: Seq<char>, from: Seq<char>, to: Seq<char>) -> Seq<char> {
    "durable ID "@ + id + " moved from "@ + from + " to "@ + to
}

pub open spec fn deleted_message(id: Seq<char>) -> Seq<char> {
    "durable ID "@ + id + " was deleted from repository history"@
}

/// `m` as a one-message list when `b` holds, else nothing.
pub open spec fn when(b: bool, m: Seq<char>) -> Seq<Seq<char>> {
    if b {
        seq![m]
    } else {
        Seq::empty()
    }
}

/// The messages an observation raises against the ledger: reuse of a
/// deleted durable ID, then, for a known ID, a type change, an illegal
/// lifecycle transition, a changed hash after verification, and a move of a
/// non-draft object.
pub open spec fn observation_messages(
    ledger: Map<Seq<char>, EntryView>,
    deleted: Set<Seq<char>>,
    o: Observation,
) -> Seq<Seq<char>> {
    let id = o.id@;
    let reused = when(deleted.contains(id), reused_message(id));
    if ledger.dom().contains(id) {
        let p = ledger[id];
        reused + when(p.object_type != o.object_type@, type_change_message(id, p.object_type, o.object_type@))
            + when(!legal_transition(p.lifecycle, o.lifecycle@), lifecycle_message(id, p.lifecycle, o.lifecycle@))
            + when(p.verified && p.hash != o.hash@, mutated_message(id)) + when(
            p.lifecycle != "draft"@ && p.path != o.path@,
            moved_message(id, p.path, o.path@),
        )
    } else {
        reused
    }
}

/// What the ledger holds for an ID after an observation of it: the observed
/// values, verified if either the observation or an earlier one was.
pub open spec fn observed_entry(ledger: Map<Seq<char>, EntryView>, o: Observation) -> EntryView {
    EntryView {
        object_type: o.object_type@,
        lifecycle: o.lifecycle@,
        path: o.path@,
        verified: (ledger.dom().contains(o.id@) && ledger[o.id@].verified) || o.verified,
        hash: o.hash@,
    }
}

/// The IDs seen in the previous commit but not in this one whose deletion
/// is durable: they had left draft or had been verified.
pub open spec fn durable_deletions(
    ledger: Map<Seq<char>, EntryView>,
    previous: Seq<Seq<char>>,
    observed: Seq<Seq<char>>,
) -> Seq<Seq<char>>
    decreases previous.len(),
{
    if previous.len() == 0 {
        Seq::empty()
    } else {
        let id = previous.last();
        let rest = durable_deletions(ledger, previous.drop_last(), observed);
        if !observed.contains(id) && ledger.dom().contains(id) && (ledger[id].lifecycle != "draft"@
            || ledger[id].verified) {
            rest.push(id)
        } else {
            rest
        }
    }
}

proof fn lemma_deletions_within(
    ledger: Map<Seq<char>, EntryView>,
    previous: Seq<Seq<char>>,
    observed: Seq<Seq<char>>,
)
    ensures
        forall|i: int|
            0 <= i < durable_deletions(ledger, previous, observed).len() ==> previous.contains(
                #[trigger] durable_deletions(ledger, previous, observed)[i],
            ),
    decreases previous.len(),
{
    if previous.len() > 0 {
        lemma_deletions_within(ledger, previous.drop_last(), observed);
        let rest = durable_deletions(ledger, previous.drop_last(), observed);
        assert forall|i: int|
            0 <= i < durable_deletions(ledger, previous, observed).len() implies previous.contains(
                #[trigger] durable_deletions(ledger, previous, observed)[i],
            ) by {
            if i < rest.len() {
                assert(previous.drop_last().contains(rest[i]));
                let k = choose|k: int| 0 <= k < previous.drop_last().len() && previous.drop_last()[k] == rest[i];
                assert(previous[k] == rest[i]);
            } else {
                assert(previous[previous.len() - 1] == previous.last());
            }
        }
    }
}

proof fn lemma_durable_deletion(
    ledger: Map<Seq<char>, EntryView>,
    previous: Seq<Seq<char>>,
    observed: Seq<Seq<char>>,
    id: Seq<char>,
)
    requires
        previous.contains(id),
        !observed.contains(id),
        ledger.dom().contains(id),
        ledger[id].lifecycle != "draft"@ || ledger[id].verified,
    ensures
        durable_deletions(ledger, previous, observed).contains(id),
    decreases previous.len(),
{
    let init = previous.drop_last();
    let rest = durable_deletions(ledger, init, observed);
    if previous.last() == id {
        assert(durable_deletions(ledger, previous, observed) == rest.push(id));
        assert(rest.push(id)[rest.len() as int] == id);
    } else {
        let k = choose|k: int| 0 <= k < previous.len() && previous[k] == id;
        assert(k < previous.len() - 1);
        assert(init[k] == id);
        lemma_durable_deletion(ledger, init, observed, id);
        let j = choose|j: int| 0 <= j < rest.len() && rest[j] == id;
        let all = durable_deletions(ledger, previous, observed);
        assert(all[j] == id);
    }
}

/// A durable ID (one that had left draft or had been verified) that
/// disappears from a commit is reported as reused, before anything else,
/// whenever it is seen again: the deleted set only grows, so any later
/// deleted set still holds it, whatever the ledger holds by then.
pub proof fn law_deleted_durable_ids_are_reported_on_reuse(
    ledger: Map<Seq<char>, EntryView>,
    previous: Seq<Seq<char>>,
    observed: Seq<Seq<char>>,
    later_ledger: Map<Seq<char>, EntryView>,
    later_deleted: Set<Seq<char>>,
    o: Observation,
)
    requires
        previous.contains(o.id@),
        !observed.contains(o.id@),
        ledger.dom().contains(o.id@),
        ledger[o.id@].lifecycle != "draft"@ || ledger[o.id@].verified,
        durable_deletions(ledger, previous, observed).to_set().subset_of(later_deleted),
    ensures
        observation_messages(later_ledger, later_deleted, o).len() > 0,
        observation_messages(later_ledger, later_deleted, o)[0] == reused_message(o.id@),
{
    lemma_durable_deletion(ledger, previous, observed, o.id@);
    assert(durable_deletions(ledger, previous, observed).to_set().contains(o.id@));
    assert(later_deleted.contains(o.id@));
}

/// The messages of the durable deletions.
pub open spec fn deletion_messages(ids: Seq<Seq<char>>) -> Seq<Seq<char>> {
    ids.map_values(|id: Seq<char>| deleted_message(id))
}

/// The object type of a Markdown file under `okf/<directory>/`, when the
/// directory is one of the six semantic directories.
pub open spec fn tracked_object_type(file: Seq<char>) -> Option<Seq<char>> {
    let prefix = "okf/"@;
    let suffix = ".md"@;
    if file.len() < suffix.len() || file.skip(file.len() - suffix.len()) != suffix {
        None
    } else if file.len() < prefix.len() || file.take(prefix.len() as int) != prefix {
        None
    } else {
        let rest = file.skip(prefix.len() as int);
        let directory = match crate::text::char_index(rest, '/') {
            Some(i) => rest.take(i as int),
            None => rest,
        };
        if directory == "entities"@ {
            Some("entity"@)
        } else if directory == "concepts"@ {
            Some("concept"@)
        } else if directory == "systems"@ {
            Some("system"@)
        } else if directory == "research"@ {
            Some("research"@)
        } else if directory == "decisions"@ {
            Some("decision"@)
        } else if directory == "references"@ {
            Some("reference"@)
        } else {
            None
        }
    }
}

/// The object type of a file that the history walk looks at.
pub fn history_object_type(file: &str) -> (r: Option<&'static str>)
    ensures
        match r {
            Some(t) => tracked_object_type(file@) == Some(t@),
            None => tracked_object_type(file@) is None,
        },
{
    let cs = str_chars(file);
    proof {
        reveal_strlit("okf/");
        reveal_strlit(".md");
    }
    if cs.len() < 3 || cs[cs.len() - 3] != '.' || cs[cs.len() - 2] != 'm' || cs[cs.len() - 1] != 'd' {
        proof {
            if cs.len() >= 3 {
                let tail = file@.skip(file@.len() - 3);
                assert(tail[0] == cs@[cs.len() - 3] && tail[1] == cs@[cs.len() - 2] && tail[2]
                    == cs@[cs.len() - 1]);
            }
        }
        return None;
    }
    assert(file@.skip(file@.len() - 3) =~= ".md"@);
    if cs.len() < 4 || cs[0] != 'o' || cs[1] != 'k' || cs[2] != 'f' || cs[3] != '/' {
        proof {
            if cs.len() >= 4 {
                let head = file@.take(4);
                assert(head[0] == cs@[0] && head[1] == cs@[1] && head[2] == cs@[2] && head[3]
                    == cs@[3]);
            }
        }
        return None;
    }
    assert(file@.take(4) =~= "okf/"@);
    let rest = crate::text::slice_chars(cs.as_slice(), 4, cs.len());
    assert(rest@ == file@.skip(4));
    let directory = match crate::text::find_char(rest.as_slice(), '/') {
        Some(i) => crate::text::slice_chars(rest.as_slice(), 0, i),
        None => rest,
    };
    let d = string_from_chars(&directory);
    let ds = d.as_str();
    if str_eq(ds, "entities") {
        Some("entity")
    } else if str_eq(ds, "concepts") {
        Some("concept")
    } else if str_eq(ds, "systems") {
        Some("system")
    } else if str_eq(ds, "research") {
        Some("research")
    } else if str_eq(ds, "decisions") {
        Some("decision")
    } else if str_eq(ds, "references") {
        Some("reference")
    } else {
        None
    }
}

fn reused_text(id: &str) -> (s: String)
    ensures
        s@ == reused_message(id@),
{
    let mut v: Vec<char> = Vec::new();
    push_str_chars(&mut v, "durable ID ");
    push_str_chars(&mut v, id);
    push_str_chars(&mut v, " was reused after deletion");
    string_from_chars(&v)
}

fn type_change_text(id: &str, from: &str, to: &str) -> (s: String)
    ensures
        s@ == type_change_message(id@, from@, to@),
{
    let mut v: Vec<char> = Vec::new();
    push_str_chars(&mut v, "ID ");
    push_str_chars(&mut v, id);
    push_str_chars(&mut v, " changed type from ");
    push_str_chars(&mut v, from);
    push_str_chars(&mut v, " to ");
    push_str_chars(&mut v, to);
    string_from_chars(&v)
}

fn lifecycle_text(id: &str, from: &str, to: &str) -> (s: String)
    ensures
        s@ == lifecycle_message(id@, from@, to@),
{
    let mut v: Vec<char> = Vec::new();
    push_str_chars(&mut v, "illegal lifecycle transition for ");
    push_str_chars(&mut v, id);
    push_str_chars(&mut v, ": ");
    push_str_chars(&mut v, from);
    push_str_chars(&mut v, " -> ");
    push_str_chars(&mut v, to);
    string_from_chars(&v)
}

fn mutated_text(id: &str) -> (s: String)
    ensures
        s@ == mutated_message(id@),
{
    let mut v: Vec<char> = Vec::new();
    push_str_chars(&mut v, "verified identity mutated for ");
    push_str_chars(&mut v, id);
    string_from_chars(&v)
}

fn moved_text(id: &str, from: &str, to: &str) -> (s: String)
    ensures
        s@ == moved_message(id@, from@, to@),
{
    let mut v: Vec<char> = Vec::new();
    push_str_chars(&mut v, "durable ID ");
    push_str_chars(&mut v, id);
    push_str_chars(&mut v, " moved from ");
    push_str_chars(&mut v, from);
    push_str_chars(&mut v, " to ");
    push_str_chars(&mut v, to);
    string_from_chars(&v)
}

fn deleted_text(id: &str) -> (s: String)
    ensures
        s@ == deleted_message(id@),
{
    let mut v: Vec<char> = Vec::new();
    push_str_chars(&mut v, "durable ID ");
    push_str_chars(&mut v, id);
    push_str_chars(&mut v, " was deleted from repository history");
    string_from_chars(&v)
}

/// The diagnostics are the messages, in order, each at `path`.
pub open spec fn reported(ds: Seq<Diagnostic>, path: Seq<char>, msgs: Seq<Seq<char>>) -> bool {
    &&& ds.len() == msgs.len()
    &&& forall|i: int| 0 <= i < ds.len() ==> (#[trigger] ds[i]).path@ == path && ds[i].message@ == msgs[i]
}

fn report(ds: &mut Vec<Diagnostic>, path: &str, message: String, Ghost(msgs): Ghost<Seq<Seq<char>>>, Ghost(cond): Ghost<bool>)
    requires
        reported(old(ds)@, path@, msgs),
        cond,
    ensures
        reported(final(ds)@, path@, msgs + when(cond, message@)),
{
    let d = diagnostic(path, message);
    ds.push(d);
    assert(msgs + when(cond, d.message@) =~= msgs.push(d.message@));
}

fn diagnostic(path: &str, message: String) -> (d: Diagnostic)
    ensures
        d.path@ == path@,
        d.message@ == message@,
{
    Diagnostic { path: path.to_owned(), message }
}

fn contains_string(v: &Vec<String>, s: &str) -> (b: bool)
    ensures
        b == string_views(v@).contains(s@),
{
    let mut i: usize = 0;
    while i < v.len()
        invariant
            i <= v.len(),
            forall|j: int| 0 <= j < i ==> string_views(v@)[j] != s@,
        decreases v.len() - i,
    {
        if str_eq(v[i].as_str(), s) {
            assert(string_views(v@)[i as int] == s@);
            return true;
        }
        i = i + 1;
    }
    false
}

fn index_of_string(v: &Vec<String>, s: &str) -> (r: Option<usize>)
    ensures
        match r {
            Some(i) => i < v.len() && string_views(v@)[i as int] == s@,
            None => !string_views(v@).contains(s@),
        },
{
    let mut i: usize = 0;
    while i < v.len()
        invariant
            i <= v.len(),
            forall|j: int| 0 <= j < i ==> string_views(v@)[j] != s@,
        decreases v.len() - i,
    {
        if str_eq(v[i].as_str(), s) {
            return Some(i);
        }
        i = i + 1;
    }
    None
}

impl History {
    /// The ledger: for each ID seen so far, what was last recorded of it.
    pub closed spec fn ledger(&self) -> Map<Seq<char>, EntryView> {
        Map::new(
            |k: Seq<char>| string_views(self.ids@).contains(k),
            |k: Seq<char>| self.entries@[string_views(self.ids@).index_of(k)]@,
        )
    }

    /// The IDs seen in the commit being walked, in the order first seen.
    pub closed spec fn observed_ids(&self) -> Seq<Seq<char>> {
        string_views(self.observed@)
    }

    /// The IDs seen in the commit before.
    pub closed spec fn previous_ids(&self) -> Seq<Seq<char>> {
        string_views(self.previous@)
    }

    /// The durable IDs deleted so far.
    pub closed spec fn deleted_ids(&self) -> Set<Seq<char>> {
        string_views(self.deleted@).to_set()
    }

    /// The ledger's internal invariant.
    pub closed spec fn wf(&self) -> bool {
        &&& self.ids.len() == self.entries.len()
        &&& distinct(string_views(self.ids@))
        &&& distinct(string_views(self.observed@))
        &&& distinct(string_views(self.previous@))
    }

    /// An empty history.
    pub fn new() -> (h: History)
        ensures
            h.wf(),
            h.ledger() == Map::<Seq<char>, EntryView>::empty(),
            h.observed_ids() == Seq::<Seq<char>>::empty(),
            h.previous_ids() == Seq::<Seq<char>>::empty(),
            h.deleted_ids() == Set::<Seq<char>>::empty(),
    {
        let h = History {
            ids: Vec::new(),
            entries: Vec::new(),
            previous: Vec::new(),
            observed: Vec::new(),
            deleted: Vec::new(),
        };
        assert(h.ledger() =~= Map::<Seq<char>, EntryView>::empty());
        assert(h.observed_ids() =~= Seq::<Seq<char>>::empty());
        assert(h.previous_ids() =~= Seq::<Seq<char>>::empty());
        assert(h.deleted_ids() =~= Set::<Seq<char>>::empty());
        h
    }

    proof fn lemma_entry(&self, i: int)
        requires
            self.wf(),
            0 <= i < self.ids.len(),
        ensures
            self.ledger().dom().contains(self.ids@[i]@),
            self.ledger()[self.ids@[i]@] == self.entries@[i]@,
    {
        let v = string_views(self.ids@);
        assert(v[i] == self.ids@[i]@);
        assert(v.contains(v[i]));
        let j = v.index_of(v[i]);
        assert(0 <= j < v.len() && v[j] == v[i]);
        if j != i {
            if j < i {
                assert(v[j] != v[i]);
            } else {
                assert(v[i] != v[j]);
            }
        }
    }

    /// Records one object version of the commit being walked and returns the
    /// diagnostics it raises, all at the observation's path.
    pub fn observe(&mut self, o: Observation) -> (ds: Vec<Diagnostic>)
        requires
            old(self).wf(),
        ensures
            final(self).wf(),
            ds.len() == observation_messages(old(self).ledger(), old(self).deleted_ids(), o).len(),
            forall|i: int|
                0 <= i < ds.len() ==> (#[trigger] ds@[i]).path@ == o.path@ && ds@[i].message@
                    == observation_messages(old(self).ledger(), old(self).deleted_ids(), o)[i],
            final(self).ledger() == old(self).ledger().insert(o.id@, observed_entry(old(self).ledger(), o)),
            final(self).observed_ids() == if old(self).observed_ids().contains(o.id@) {
                old(self).observed_ids()
            } else {
                old(self).observed_ids().push(o.id@)
            },
            final(self).previous_ids() == old(self).previous_ids(),
            final(self).deleted_ids() == old(self).deleted_ids(),
    {
        let ghost ledger0 = self.ledger();
        let ghost deleted0 = self.deleted_ids();
        let ghost msgs = observation_messages(ledger0, deleted0, o);
        let ghost obs0 = self.observed_ids();
        let id = o.id.as_str();
        if !contains_string(&self.observed, id) {
            self.observed.push(o.id.clone());
            proof {
                let v = string_views(self.observed@);
                assert(v =~= obs0.push(o.id@));
                assert forall|i: int, j: int| 0 <= i < j < v.len() implies v[i] != v[j] by {
                    if j == v.len() - 1 {
                        assert(obs0[i] == v[i]);
                        if v[i] == o.id@ {
                            assert(obs0.contains(o.id@));
                        }
                    }
                }
            }
        }
        let mut ds: Vec<Diagnostic> = Vec::new();
        let path = o.path.as_str();
        let ghost mut exp: Seq<Seq<char>> = Seq::empty();
        assert(reported(ds@, path@, exp));
        let reused = contains_string(&self.deleted, id);
        assert(reused == deleted0.contains(o.id@));
        if reused {
            report(&mut ds, path, reused_text(id), Ghost(exp), Ghost(true));
        }
        proof {
            exp = exp + when(deleted0.contains(o.id@), reused_message(o.id@));
            assert(exp =~= when(deleted0.contains(o.id@), reused_message(o.id@)));
        }
        match index_of_string(&self.ids, id) {
            Some(k) => {
                proof { self.lemma_entry(k as int); }
                let ghost p = ledger0[o.id@];
                assert(p == self.entries@[k as int]@);
                let prev = &self.entries[k];
                let pt = prev.object_type.as_str();
                let pl = prev.lifecycle.as_str();
                let nl = o.lifecycle.as_str();
                let c1 = !str_eq(pt, o.object_type.as_str());
                if c1 {
                    report(&mut ds, path, type_change_text(id, pt, o.object_type.as_str()), Ghost(exp), Ghost(true));
                }
                proof {
                    if !c1 { assert(exp + when(c1, type_change_message(id@, pt@, o.object_type@)) =~= exp); }
                    exp = exp + when(c1, type_change_message(id@, pt@, o.object_type@));
                }
                let legal = (str_eq(pl, "draft") && (str_eq(nl, "draft") || str_eq(nl, "active") || str_eq(nl, "deprecated")))
                    || (str_eq(pl, "active") && (str_eq(nl, "active") || str_eq(nl, "deprecated")))
                    || (str_eq(pl, "deprecated") && str_eq(nl, "deprecated"));
                assert(legal == legal_transition(pl@, nl@));
                if !legal {
                    report(&mut ds, path, lifecycle_text(id, pl, nl), Ghost(exp), Ghost(true));
                }
                proof {
                    if legal { assert(exp + when(!legal, lifecycle_message(id@, pl@, nl@)) =~= exp); }
                    exp = exp + when(!legal, lifecycle_message(id@, pl@, nl@));
                }
                let c3 = prev.verified && !str_eq(prev.hash.as_str(), o.hash.as_str());
                if c3 {
                    report(&mut ds, path, mutated_text(id), Ghost(exp), Ghost(true));
                }
                proof {
                    if !c3 { assert(exp + when(c3, mutated_message(id@)) =~= exp); }
                    exp = exp + when(c3, mutated_message(id@));
                }
                let c4 = !str_eq(pl, "draft") && !str_eq(prev.path.as_str(), path);
                if c4 {
                    report(&mut ds, path, moved_text(id, prev.path.as_str(), path), Ghost(exp), Ghost(true));
                }
                proof {
                    if !c4 { assert(exp + when(c4, moved_message(id@, prev.path@, path@)) =~= exp); }
                    exp = exp + when(c4, moved_message(id@, prev.path@, path@));
                    assert(exp == msgs);
                }
                let entry = LedgerEntry {
                    object_type: o.object_type.clone(),
                    lifecycle: o.lifecycle.clone(),
                    path: o.path.clone(),
                    verified: prev.verified || o.verified,
                    hash: o.hash.clone(),
                };
                let ghost ids_view = string_views(self.ids@);
                self.entries.set(k, entry);
                proof {
                    let new_ledger = self.ledger();
                    let expected = ledger0.insert(o.id@, observed_entry(ledger0, o));
                    assert(ids_view[k as int] == o.id@);
                    assert(ids_view.contains(o.id@));
                    assert(ledger0.dom().contains(o.id@));
                    assert(string_views(self.ids@) == ids_view);
                    assert forall|key: Seq<char>| #[trigger] new_ledger.dom().contains(key) <==> expected.dom().contains(key) by {
                        assert(new_ledger.dom().contains(key) == ids_view.contains(key));
                        assert(ledger0.dom().contains(key) == ids_view.contains(key));
                        assert(expected.dom().contains(key) == (ledger0.dom().contains(key) || key == o.id@));
                    }
                    assert forall|key: Seq<char>| new_ledger.dom().contains(key) implies #[trigger] new_ledger[key] == expected[key] by {
                        let j = ids_view.index_of(key);
                        assert(0 <= j < ids_view.len() && ids_view[j] == key);
                        if key == o.id@ {
                            self.lemma_entry(k as int);
                        } else {
                            assert(j != k);
                        }
                    }
                    assert(new_ledger =~= expected);
                }
            },
            None => {
                assert(exp == msgs);
                let entry = LedgerEntry {
                    object_type: o.object_type.clone(),
                    lifecycle: o.lifecycle.clone(),
                    path: o.path.clone(),
                    verified: o.verified,
                    hash: o.hash.clone(),
                };
                let ghost ids0 = string_views(self.ids@);
                let ghost entries0 = self.entries@;
                self.ids.push(o.id.clone());
                self.entries.push(entry);
                proof {
                    let ids1 = string_views(self.ids@);
                    assert(ids1 =~= ids0.push(o.id@));
                    assert forall|i: int, j: int| 0 <= i < j < ids1.len() implies ids1[i] != ids1[j] by {
                        if j == ids1.len() - 1 {
                            assert(ids0[i] == ids1[i]);
                            if ids1[i] == o.id@ {
                                assert(ids0.contains(o.id@));
                            }
                        }
                    }
                    let new_ledger = self.ledger();
                    let expected = ledger0.insert(o.id@, observed_entry(ledger0, o));
                    assert forall|key: Seq<char>| #[trigger] new_ledger.dom().contains(key) <==> expected.dom().contains(key) by {
                        assert(ledger0.dom().contains(key) == ids0.contains(key));
                        assert(new_ledger.dom().contains(key) == ids1.contains(key));
                        if key == o.id@ {
                            assert(ids1[ids0.len() as int] == key);
                        }
                        if key != o.id@ && ids1.contains(key) {
                            let j = choose|j: int| 0 <= j < ids1.len() && ids1[j] == key;
                            assert(j < ids0.len());
                            assert(ids0[j] == key);
                        }
                        if ids0.contains(key) {
                            let j = choose|j: int| 0 <= j < ids0.len() && ids0[j] == key;
                            assert(ids1[j] == key);
                        }
                    }
                    assert forall|key: Seq<char>| new_ledger.dom().contains(key) implies #[trigger] new_ledger[key] == expected[key] by {
                        let j = ids1.index_of(key);
                        assert(0 <= j < ids1.len() && ids1[j] == key);
                        if key == o.id@ {
                            self.lemma_entry(ids0.len() as int);
                        } else {
                            assert(j < ids0.len());
                            assert(ids0[j] == key);
                            let j0 = ids0.index_of(key);
                            assert(0 <= j0 < ids0.len() && ids0[j0] == key);
                            if j0 != j {
                                if j0 < j {
                                    assert(ids1[j0] != ids1[j]);
                                } else {
                                    assert(ids1[j] != ids1[j0]);
                                }
                            }
                        }
                    }
                    assert(new_ledger =~= expected);
                }
            },
        }
        ds
    }

    /// Closes the commit being walked: every ID seen in the commit before
    /// but not in this one whose deletion is durable is recorded as deleted
    /// and reported at `okf`; this commit's IDs become the previous ones.
    pub fn finish_commit(&mut self) -> (ds: Vec<Diagnostic>)
        requires
            old(self).wf(),
        ensures
            final(self).wf(),
            ds.len() == durable_deletions(old(self).ledger(), old(self).previous_ids(), old(self).observed_ids()).len(),
            forall|i: int|
                0 <= i < ds.len() ==> (#[trigger] ds@[i]).path@ == "okf"@ && ds@[i].message@
                    == deletion_messages(durable_deletions(old(self).ledger(), old(self).previous_ids(), old(self).observed_ids()))[i],
            final(self).ledger() == old(self).ledger(),
            final(self).deleted_ids() == old(self).deleted_ids() + durable_deletions(
                old(self).ledger(),
                old(self).previous_ids(),
                old(self).observed_ids(),
            ).to_set(),
            final(self).previous_ids() == old(self).observed_ids(),
            final(self).observed_ids() == Seq::<Seq<char>>::empty(),
    {
        let ghost ledger0 = self.ledger();
        let ghost prev0 = self.previous_ids();
        let ghost obs0 = self.observed_ids();
        let ghost deleted0 = self.deleted_ids();
        let mut ds: Vec<Diagnostic> = Vec::new();
        let mut i: usize = 0;
        while i < self.previous.len()
            invariant
                self.wf(),
                self.ledger() == ledger0,
                self.previous_ids() == prev0,
                self.observed_ids() == obs0,
                i <= prev0.len(),
                ds.len() == durable_deletions(ledger0, prev0.take(i as int), obs0).len(),
                forall|j: int|
                    0 <= j < ds.len() ==> (#[trigger] ds@[j]).path@ == "okf"@ && ds@[j].message@
                        == deletion_messages(durable_deletions(ledger0, prev0.take(i as int), obs0))[j],
                self.deleted_ids() == deleted0 + durable_deletions(ledger0, prev0.take(i as int), obs0).to_set(),
            decreases prev0.len() - i,
        {
            let ghost before = durable_deletions(ledger0, prev0.take(i as int), obs0);
            assert(prev0.take(i + 1).drop_last() =~= prev0.take(i as int));
            assert(prev0.take(i + 1).last() == prev0[i as int]);
            let id = self.previous[i].as_str();
            assert(id@ == prev0[i as int]);
            if !contains_string(&self.observed, id) {
                match index_of_string(&self.ids, id) {
                    Some(k) => {
                        proof { self.lemma_entry(k as int); }
                        let e = &self.entries[k];
                        if !str_eq(e.lifecycle.as_str(), "draft") || e.verified {
                            let d = diagnostic("okf", deleted_text(id));
                            let ghost deleted_before = string_views(self.deleted@);
                            self.deleted.push(self.previous[i].clone());
                            proof {
                                assert(string_views(self.deleted@) =~= deleted_before.push(id@));
                                deleted_before.lemma_push_to_set_commute(id@);
                                assert(string_views(self.deleted@).to_set() =~= deleted_before.to_set().insert(id@));
                                assert(durable_deletions(ledger0, prev0.take(i + 1), obs0) == before.push(id@));
                                before.lemma_push_to_set_commute(id@);
                                assert(before.push(id@).to_set() =~= before.to_set().insert(id@));
                            }
                            ds.push(d);
                            proof {
                                let after = durable_deletions(ledger0, prev0.take(i + 1), obs0);
                                assert(deletion_messages(after) =~= deletion_messages(before).push(deleted_message(id@)));
                            }
                        } else {
                            assert(durable_deletions(ledger0, prev0.take(i + 1), obs0) == before);
                        }
                    },
                    None => {
                        assert(durable_deletions(ledger0, prev0.take(i + 1), obs0) == before);
                    },
                }
            } else {
                assert(durable_deletions(ledger0, prev0.take(i + 1), obs0) == before);
            }
            i = i + 1;
        }
        assert(prev0.take(prev0.len() as int) =~= prev0);
        let mut fresh: Vec<String> = Vec::new();
        std::mem::swap(&mut fresh, &mut self.observed);
        self.previous = fresh;
        proof {
            assert(self.observed_ids() =~= Seq::<Seq<char>>::empty());
        }
        ds
    }
}

} // verus!
