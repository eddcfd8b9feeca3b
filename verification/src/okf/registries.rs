//! The relation and type registries: how they are read from their YAML
//! documents, kept in ascending name order, and checked for consistency.

use vstd::prelude::*;

use crate::okf::fields::{string_field, string_field_spec};
use crate::okf::validate::{is_object_type, is_semantic_type, outcome, valid_slug, valid_slug_spec};
use crate::okf::yaml::{boolean, field, is_map, items, text, Yaml};
use crate::text::{concat2, str_eq};

verus! {

/// A relation type's rule as plain values.
pub struct RuleView {
    pub inverse: Seq<char>,
    pub source_claim: bool,
    pub target_claim: bool,
    pub source_types: Seq<Seq<char>>,
    pub target_types: Seq<Seq<char>>,
    pub selectors: bool,
    pub self_edges_forbidden: bool,
    pub acyclic: bool,
}

/// A relation type's rule: its inverse name, whether claims may be its
/// source or target, the object types at either end, whether selectors are
/// allowed, whether exact self-edges are forbidden and whether it must stay
/// acyclic.
#[derive(Debug)]
pub struct RelationRule {
    pub inverse: String,
    pub source_claim: bool,
    pub target_claim: bool,
    pub source_types: Vec<String>,
    pub target_types: Vec<String>,
    pub selectors: bool,
    pub self_edges_forbidden: bool,
    pub acyclic: bool,
}

/// The views of a list of strings.
pub open spec fn texts(v: Seq<String>) -> Seq<Seq<char>> {
    v.map_values(|s: String| s@)
}

impl View for RelationRule {
    type V = RuleView;

    open spec fn view(&self) -> RuleView {
        RuleView {
            inverse: self.inverse@,
            source_claim: self.source_claim,
            target_claim: self.target_claim,
            source_types: texts(self.source_types@),
            target_types: texts(self.target_types@),
            selectors: self.selectors,
            self_edges_forbidden: self.self_edges_forbidden,
            acyclic: self.acyclic,
        }
    }
}

/// A semantic type's rule as plain values.
pub struct TypeView {
    pub required_fields: Seq<Seq<char>>,
    pub forbidden_fields: Seq<Seq<char>>,
    pub canonical_claim: Option<Seq<char>>,
    pub canonical_claims: bool,
    pub active_sections: Seq<Seq<char>>,
}

/// A semantic type's rule: the fields it requires and forbids, the field
/// that names its canonical claim, whether it lists canonical claims, and
/// the sections an active object must have.
#[derive(Debug)]
pub struct TypeRule {
    pub required_fields: Vec<String>,
    pub forbidden_fields: Vec<String>,
    pub canonical_claim: Option<String>,
    pub canonical_claims: bool,
    pub active_sections: Vec<String>,
}

/// The view of an optional string.
pub open spec fn opt_text(o: Option<String>) -> Option<Seq<char>> {
    match o {
        Some(s) => Some(s@),
        None => None,
    }
}

impl View for TypeRule {
    type V = TypeView;

    open spec fn view(&self) -> TypeView {
        TypeView {
            required_fields: texts(self.required_fields@),
            forbidden_fields: texts(self.forbidden_fields@),
            canonical_claim: opt_text(self.canonical_claim),
            canonical_claims: self.canonical_claims,
            active_sections: texts(self.active_sections@),
        }
    }
}

/// Both registries, each in ascending order of names.
#[derive(Debug)]
pub struct Registries {
    pub relations: Vec<(String, RelationRule)>,
    pub types: Vec<(String, TypeRule)>,
}

/// `a` sorts before `b`, comparing characters by code point.
pub open spec fn text_less(a: Seq<char>, b: Seq<char>) -> bool
    decreases a.len(),
{
    if a.len() == 0 {
        b.len() > 0
    } else if b.len() == 0 {
        false
    } else if a[0] != b[0] {
        (a[0] as int) < (b[0] as int)
    } else {
        text_less(a.drop_first(), b.drop_first())
    }
}

/// Whether `a` sorts before `b`.
pub fn text_less_exec(a: &str, b: &str) -> (r: bool)
    ensures
        r == text_less(a@, b@),
{
    let x = crate::text::str_chars(a);
    let y = crate::text::str_chars(b);
    let mut i: usize = 0;
    assert(x@.skip(0) =~= x@);
    assert(y@.skip(0) =~= y@);
    while i < x.len() && i < y.len() && x[i] == y[i]
        invariant
            x@ == a@,
            y@ == b@,
            i <= x.len(),
            i <= y.len(),
            text_less(x@, y@) == text_less(x@.skip(i as int), y@.skip(i as int)),
        decreases x.len() - i,
    {
        proof {
            let xs = x@.skip(i as int);
            let ys = y@.skip(i as int);
            assert(xs.drop_first() =~= x@.skip(i + 1));
            assert(ys.drop_first() =~= y@.skip(i + 1));
        }
        i = i + 1;
    }
    let ghost xs = x@.skip(i as int);
    let ghost ys = y@.skip(i as int);
    if i == x.len() {
        assert(xs.len() == 0);
        i < y.len()
    } else if i == y.len() {
        false
    } else {
        assert(xs[0] == x@[i as int] && ys[0] == y@[i as int]);
        x[i] < y[i]
    }
}

/// Inserts `(name, v)` before the first entry whose name sorts after `name`.
pub open spec fn sorted_insert<V>(s: Seq<(Seq<char>, V)>, name: Seq<char>, v: V) -> Seq<(Seq<char>, V)>
    decreases s.len(),
{
    if s.len() == 0 {
        seq![(name, v)]
    } else if text_less(name, s[0].0) {
        seq![(name, v)] + s
    } else {
        seq![s[0]] + sorted_insert(s.drop_first(), name, v)
    }
}

/// The name appears among the entries.
pub open spec fn has_name<V>(s: Seq<(Seq<char>, V)>, name: Seq<char>) -> bool {
    exists|i: int| 0 <= i < s.len() && #[trigger] s[i].0 == name
}

/// A list of strings under `name`, or the error that it is not one.
pub open spec fn strings_field_spec(map: Yaml, name: Seq<char>) -> Result<Seq<Seq<char>>, Seq<char>> {
    match items(field(map, name)) {
        None => Err(name + " must be a sequence"@),
        Some(list) => if forall|i: int| 0 <= i < list.len() ==> text(Some(#[trigger] list[i])) is Some {
            Ok(list.map_values(|y: Yaml| text(Some(y)).unwrap()))
        } else {
            Err(name + " entries must be strings"@)
        },
    }
}

/// A boolean under `name`, or the error that it is not one.
pub open spec fn bool_field_spec(map: Yaml, name: Seq<char>) -> Result<bool, Seq<char>> {
    match boolean(field(map, name)) {
        Some(b) => Ok(b),
        None => Err(name + " must be a boolean"@),
    }
}

/// An optional string under `name`: absent or null is nothing.
pub open spec fn optional_string_spec(map: Yaml, name: Seq<char>) -> Result<Option<Seq<char>>, Seq<char>> {
    match field(map, name) {
        None => Ok(None),
        Some(Yaml::Null) => Ok(None),
        Some(_) => match string_field_spec(map, name) {
            Ok(s) => Ok(Some(s)),
            Err(e) => Err(e),
        },
    }
}

/// Reads a boolean field.
pub fn value_bool(map: &Yaml, name: &str) -> (r: Result<bool, String>)
    ensures
        match r {
            Ok(b) => bool_field_spec(*map, name@) == Ok::<bool, Seq<char>>(b),
            Err(e) => bool_field_spec(*map, name@) == Err::<bool, Seq<char>>(e@),
        },
{
    match map.get(name) {
        Some(v) => match v.as_bool() {
            Some(b) => Ok(b),
            None => Err(concat2(name, " must be a boolean")),
        },
        None => Err(concat2(name, " must be a boolean")),
    }
}

/// Reads a list of strings.
pub fn value_strings(map: &Yaml, name: &str) -> (r: Result<Vec<String>, String>)
    ensures
        match r {
            Ok(v) => strings_field_spec(*map, name@) == Ok::<Seq<Seq<char>>, Seq<char>>(texts(v@)),
            Err(e) => strings_field_spec(*map, name@) == Err::<Seq<Seq<char>>, Seq<char>>(e@),
        },
{
    let list = match map.get(name) {
        Some(v) => match v.as_seq() {
            Some(l) => l,
            None => return Err(concat2(name, " must be a sequence")),
        },
        None => return Err(concat2(name, " must be a sequence")),
    };
    let mut out: Vec<String> = Vec::new();
    let mut i: usize = 0;
    while i < list.len()
        invariant
            items(field(*map, name@)) == Some(list@),
            i <= list.len(),
            out.len() == i,
            forall|j: int| 0 <= j < i ==> text(Some(#[trigger] list@[j])) == Some(out@[j]@),
        decreases list.len() - i,
    {
        match list[i].as_str() {
            Some(s) => out.push(s.to_owned()),
            None => {
                assert(text(Some(list@[i as int])) is None);
                return Err(concat2(name, " entries must be strings"));
            },
        }
        i = i + 1;
    }
    assert(texts(out@) =~= list@.map_values(|y: Yaml| text(Some(y)).unwrap()));
    Ok(out)
}

/// Reads an optional string; absent or null is nothing.
pub fn value_optional_string(map: &Yaml, name: &str) -> (r: Result<Option<String>, String>)
    ensures
        match r {
            Ok(o) => optional_string_spec(*map, name@) == Ok::<Option<Seq<char>>, Seq<char>>(opt_text(o)),
            Err(e) => optional_string_spec(*map, name@) == Err::<Option<Seq<char>>, Seq<char>>(e@),
        },
{
    match map.get(name) {
        None => Ok(None),
        Some(Yaml::Null) => Ok(None),
        Some(_) => match string_field(map, name) {
            Ok(s) => Ok(Some(s)),
            Err(e) => Err(e),
        },
    }
}

/// The rule of one relation registry entry, or the first problem with it;
/// `known` holds the names read before it.
pub open spec fn relation_entry(e: Yaml, known: Seq<(Seq<char>, RuleView)>) -> Result<(Seq<char>, RuleView), Seq<char>> {
    if !is_map(Some(e)) {
        Err("each relation registry entry must be a mapping"@)
    } else {
        match string_field_spec(e, "name"@) {
            Err(x) => Err(x),
            Ok(name) => if !valid_slug_spec(name) || has_name(known, name) {
                Err("invalid or duplicate relation name: "@ + name)
            } else {
                match (
                    string_field_spec(e, "inverse"@),
                    bool_field_spec(e, "source_claim"@),
                    bool_field_spec(e, "target_claim"@),
                    strings_field_spec(e, "source_types"@),
                    strings_field_spec(e, "target_types"@),
                    bool_field_spec(e, "selectors"@),
                    string_field_spec(e, "self_edges"@),
                    bool_field_spec(e, "acyclic"@),
                ) {
                    (Err(x), _, _, _, _, _, _, _) => Err(x),
                    (Ok(_), Err(x), _, _, _, _, _, _) => Err(x),
                    (Ok(_), Ok(_), Err(x), _, _, _, _, _) => Err(x),
                    (Ok(_), Ok(_), Ok(_), Err(x), _, _, _, _) => Err(x),
                    (Ok(_), Ok(_), Ok(_), Ok(_), Err(x), _, _, _) => Err(x),
                    (Ok(_), Ok(_), Ok(_), Ok(_), Ok(_), Err(x), _, _) => Err(x),
                    (Ok(_), Ok(_), Ok(_), Ok(_), Ok(_), Ok(_), Err(x), _) => Err(x),
                    (Ok(_), Ok(_), Ok(_), Ok(_), Ok(_), Ok(_), Ok(_), Err(x)) => Err(x),
                    (Ok(inverse), Ok(sc), Ok(tc), Ok(st), Ok(tt), Ok(sel), Ok(se), Ok(ac)) => Ok(
                        (
                            name,
                            RuleView {
                                inverse,
                                source_claim: sc,
                                target_claim: tc,
                                source_types: st,
                                target_types: tt,
                                selectors: sel,
                                self_edges_forbidden: se == "forbidden"@,
                                acyclic: ac,
                            },
                        ),
                    ),
                }
            },
        }
    }
}

/// Reads the entries in order into a name-ordered registry, stopping at the
/// first problem.
pub open spec fn relations_from(entries: Seq<Yaml>, acc: Seq<(Seq<char>, RuleView)>) -> Result<
    Seq<(Seq<char>, RuleView)>,
    Seq<char>,
>
    decreases entries.len(),
{
    if entries.len() == 0 {
        Ok(acc)
    } else {
        match relation_entry(entries[0], acc) {
            Err(x) => Err(x),
            Ok((name, rule)) => relations_from(entries.drop_first(), sorted_insert(acc, name, rule)),
        }
    }
}

/// The relation registry read from its document.
pub open spec fn relation_registry(value: Yaml) -> Result<Seq<(Seq<char>, RuleView)>, Seq<char>> {
    match items(field(value, "relations"@)) {
        None => Err("relations registry must contain a relations sequence"@),
        Some(entries) => relations_from(entries, Seq::empty()),
    }
}

/// The views of registry entries.
pub open spec fn relation_views(v: Seq<(String, RelationRule)>) -> Seq<(Seq<char>, RuleView)> {
    v.map_values(|e: (String, RelationRule)| (e.0@, e.1@))
}

/// The views of type registry entries.
pub open spec fn type_views(v: Seq<(String, TypeRule)>) -> Seq<(Seq<char>, TypeView)> {
    v.map_values(|e: (String, TypeRule)| (e.0@, e.1@))
}

fn name_known<V>(known: &Vec<(String, V)>, name: &str) -> (b: bool)
    ensures
        b == exists|i: int| 0 <= i < known.len() && #[trigger] known@[i].0@ == name@,
{
    let mut i: usize = 0;
    while i < known.len()
        invariant
            i <= known.len(),
            forall|j: int| 0 <= j < i ==> #[trigger] known@[j].0@ != name@,
        decreases known.len() - i,
    {
        if str_eq(known[i].0.as_str(), name) {
            return true;
        }
        i = i + 1;
    }
    false
}

/// Inserting before the first later name puts the entry at that position.
pub proof fn lemma_sorted_insert<V>(s: Seq<(Seq<char>, V)>, name: Seq<char>, x: V, p: int)
    requires
        0 <= p <= s.len(),
        forall|j: int| 0 <= j < p ==> !text_less(name, #[trigger] s[j].0),
        p < s.len() ==> text_less(name, s[p].0),
    ensures
        sorted_insert(s, name, x) == s.take(p) + seq![(name, x)] + s.skip(p),
    decreases p,
{
    if p == 0 {
        if s.len() == 0 {
            assert(s.take(0) + seq![(name, x)] + s.skip(0) =~= seq![(name, x)]);
        } else {
            assert(s.take(0) + seq![(name, x)] + s.skip(0) =~= seq![(name, x)] + s);
        }
    } else {
        assert(!text_less(name, s[0].0));
        let rest = s.drop_first();
        assert forall|j: int| 0 <= j < p - 1 implies !text_less(name, #[trigger] rest[j].0) by {
            assert(rest[j] == s[j + 1]);
        }
        if p - 1 < rest.len() {
            assert(rest[p - 1] == s[p]);
        }
        lemma_sorted_insert(rest, name, x, p - 1);
        assert(seq![s[0]] + (rest.take(p - 1) + seq![(name, x)] + rest.skip(p - 1)) =~= s.take(p)
            + seq![(name, x)] + s.skip(p));
    }
}

/// The position before which `name` is inserted.
fn insert_position<V>(v: &Vec<(String, V)>, name: &str) -> (p: usize)
    ensures
        p <= v.len(),
        forall|j: int| 0 <= j < p ==> !text_less(name@, #[trigger] v@[j].0@),
        p < v.len() ==> text_less(name@, v@[p as int].0@),
{
    let mut p: usize = 0;
    while p < v.len()
        invariant
            p <= v.len(),
            forall|j: int| 0 <= j < p ==> !text_less(name@, #[trigger] v@[j].0@),
        decreases v.len() - p,
    {
        if text_less_exec(name, v[p].0.as_str()) {
            return p;
        }
        p = p + 1;
    }
    p
}

fn insert_relation(v: &mut Vec<(String, RelationRule)>, name: String, rule: RelationRule)
    ensures
        relation_views(final(v)@) == sorted_insert(relation_views(old(v)@), name@, rule@),
{
    let p = insert_position(v, name.as_str());
    let ghost s = relation_views(v@);
    let ghost entry = (name@, rule@);
    proof {
        assert forall|j: int| 0 <= j < p implies !text_less(name@, #[trigger] s[j].0) by {
            assert(s[j].0 == v@[j].0@);
        }
        if p < s.len() {
            assert(s[p as int].0 == v@[p as int].0@);
        }
        lemma_sorted_insert(s, name@, rule@, p as int);
    }
    v.insert(p, (name, rule));
    assert(relation_views(v@) =~= s.take(p as int) + seq![entry] + s.skip(p as int));
}

fn insert_type(v: &mut Vec<(String, TypeRule)>, name: String, rule: TypeRule)
    ensures
        type_views(final(v)@) == sorted_insert(type_views(old(v)@), name@, rule@),
{
    let p = insert_position(v, name.as_str());
    let ghost s = type_views(v@);
    let ghost entry = (name@, rule@);
    proof {
        assert forall|j: int| 0 <= j < p implies !text_less(name@, #[trigger] s[j].0) by {
            assert(s[j].0 == v@[j].0@);
        }
        if p < s.len() {
            assert(s[p as int].0 == v@[p as int].0@);
        }
        lemma_sorted_insert(s, name@, rule@, p as int);
    }
    v.insert(p, (name, rule));
    assert(type_views(v@) =~= s.take(p as int) + seq![entry] + s.skip(p as int));
}

fn relation_from_entry(e: &Yaml, known: &Vec<(String, RelationRule)>) -> (r: Result<(String, RelationRule), String>)
    ensures
        match r {
            Ok((n, rule)) => relation_entry(*e, relation_views(known@)) == Ok::<(Seq<char>, RuleView), Seq<char>>((n@, rule@)),
            Err(x) => relation_entry(*e, relation_views(known@)) == Err::<(Seq<char>, RuleView), Seq<char>>(x@),
        },
{
    if !e.is_mapping() {
        return Err("each relation registry entry must be a mapping".to_owned());
    }
    let name = match string_field(e, "name") {
        Err(x) => return Err(x),
        Ok(n) => n,
    };
    let known_name = name_known(known, name.as_str());
    proof {
        let kv = relation_views(known@);
        if known_name {
            let i = choose|i: int| 0 <= i < known.len() && #[trigger] known@[i].0@ == name@;
            assert(kv[i].0 == name@);
        }
        if has_name(kv, name@) {
            let i = choose|i: int| 0 <= i < kv.len() && #[trigger] kv[i].0 == name@;
            assert(known@[i].0@ == name@);
        }
    }
    if !valid_slug(name.as_str()) || known_name {
        return Err(concat2("invalid or duplicate relation name: ", name.as_str()));
    }
    let inverse = match string_field(e, "inverse") {
        Err(x) => return Err(x),
        Ok(v) => v,
    };
    let source_claim = match value_bool(e, "source_claim") {
        Err(x) => return Err(x),
        Ok(v) => v,
    };
    let target_claim = match value_bool(e, "target_claim") {
        Err(x) => return Err(x),
        Ok(v) => v,
    };
    let source_types = match value_strings(e, "source_types") {
        Err(x) => return Err(x),
        Ok(v) => v,
    };
    let target_types = match value_strings(e, "target_types") {
        Err(x) => return Err(x),
        Ok(v) => v,
    };
    let selectors = match value_bool(e, "selectors") {
        Err(x) => return Err(x),
        Ok(v) => v,
    };
    let self_edges = match string_field(e, "self_edges") {
        Err(x) => return Err(x),
        Ok(v) => v,
    };
    let acyclic = match value_bool(e, "acyclic") {
        Err(x) => return Err(x),
        Ok(v) => v,
    };
    let rule = RelationRule {
        inverse,
        source_claim,
        target_claim,
        source_types,
        target_types,
        selectors,
        self_edges_forbidden: str_eq(self_edges.as_str(), "forbidden"),
        acyclic,
    };
    Ok((name, rule))
}

/// Reads the relation registry document: a `relations` sequence of rule
/// mappings, kept in ascending order of names.
pub fn parse_relation_registry(value: &Yaml) -> (r: Result<Vec<(String, RelationRule)>, String>)
    ensures
        match r {
            Ok(v) => relation_registry(*value) == Ok::<Seq<(Seq<char>, RuleView)>, Seq<char>>(relation_views(v@)),
            Err(x) => relation_registry(*value) == Err::<Seq<(Seq<char>, RuleView)>, Seq<char>>(x@),
        },
{
    let list = match value.get("relations") {
        Some(v) => match v.as_seq() {
            Some(l) => l,
            None => return Err("relations registry must contain a relations sequence".to_owned()),
        },
        None => return Err("relations registry must contain a relations sequence".to_owned()),
    };
    let mut acc: Vec<(String, RelationRule)> = Vec::new();
    let mut i: usize = 0;
    assert(list@.skip(0) =~= list@);
    assert(relation_views(acc@) =~= Seq::<(Seq<char>, RuleView)>::empty());
    while i < list.len()
        invariant
            items(field(*value, "relations"@)) == Some(list@),
            i <= list.len(),
            relation_registry(*value) == relations_from(list@.skip(i as int), relation_views(acc@)),
        decreases list.len() - i,
    {
        let ghost rest = list@.skip(i as int);
        assert(rest[0] == list@[i as int]);
        assert(rest.drop_first() =~= list@.skip(i + 1));
        match relation_from_entry(&list[i], &acc) {
            Err(x) => return Err(x),
            Ok((name, rule)) => insert_relation(&mut acc, name, rule),
        }
        i = i + 1;
    }
    assert(list@.skip(i as int).len() == 0);
    Ok(acc)
}

/// The rule of one type registry entry, or the first problem with it.
pub open spec fn type_entry(e: Yaml, known: Seq<(Seq<char>, TypeView)>) -> Result<(Seq<char>, TypeView), Seq<char>> {
    if !is_map(Some(e)) {
        Err("each type registry entry must be a mapping"@)
    } else {
        match string_field_spec(e, "name"@) {
            Err(x) => Err(x),
            Ok(name) => if !is_object_type(name) || has_name(known, name) {
                Err("invalid or duplicate semantic type: "@ + name)
            } else {
                match (
                    strings_field_spec(e, "required_fields"@),
                    strings_field_spec(e, "forbidden_fields"@),
                    optional_string_spec(e, "canonical_claim"@),
                    bool_field_spec(e, "canonical_claims"@),
                    strings_field_spec(e, "active_sections"@),
                ) {
                    (Err(x), _, _, _, _) => Err(x),
                    (Ok(_), Err(x), _, _, _) => Err(x),
                    (Ok(_), Ok(_), Err(x), _, _) => Err(x),
                    (Ok(_), Ok(_), Ok(_), Err(x), _) => Err(x),
                    (Ok(_), Ok(_), Ok(_), Ok(_), Err(x)) => Err(x),
                    (Ok(req), Ok(forb), Ok(cc), Ok(ccs), Ok(secs)) => Ok(
                        (
                            name,
                            TypeView {
                                required_fields: req,
                                forbidden_fields: forb,
                                canonical_claim: cc,
                                canonical_claims: ccs,
                                active_sections: secs,
                            },
                        ),
                    ),
                }
            },
        }
    }
}

/// Reads the entries in order into a name-ordered type registry.
pub open spec fn types_from(entries: Seq<Yaml>, acc: Seq<(Seq<char>, TypeView)>) -> Result<
    Seq<(Seq<char>, TypeView)>,
    Seq<char>,
>
    decreases entries.len(),
{
    if entries.len() == 0 {
        Ok(acc)
    } else {
        match type_entry(entries[0], acc) {
            Err(x) => Err(x),
            Ok((name, rule)) => types_from(entries.drop_first(), sorted_insert(acc, name, rule)),
        }
    }
}

/// The type registry read from its document.
pub open spec fn type_registry(value: Yaml) -> Result<Seq<(Seq<char>, TypeView)>, Seq<char>> {
    match items(field(value, "types"@)) {
        None => Err("types registry must contain a types sequence"@),
        Some(entries) => types_from(entries, Seq::empty()),
    }
}

fn type_from_entry(e: &Yaml, known: &Vec<(String, TypeRule)>) -> (r: Result<(String, TypeRule), String>)
    ensures
        match r {
            Ok((n, rule)) => type_entry(*e, type_views(known@)) == Ok::<(Seq<char>, TypeView), Seq<char>>((n@, rule@)),
            Err(x) => type_entry(*e, type_views(known@)) == Err::<(Seq<char>, TypeView), Seq<char>>(x@),
        },
{
    if !e.is_mapping() {
        return Err("each type registry entry must be a mapping".to_owned());
    }
    let name = match string_field(e, "name") {
        Err(x) => return Err(x),
        Ok(n) => n,
    };
    let known_name = name_known(known, name.as_str());
    proof {
        let kv = type_views(known@);
        if known_name {
            let i = choose|i: int| 0 <= i < known.len() && #[trigger] known@[i].0@ == name@;
            assert(kv[i].0 == name@);
        }
        if has_name(kv, name@) {
            let i = choose|i: int| 0 <= i < kv.len() && #[trigger] kv[i].0 == name@;
            assert(known@[i].0@ == name@);
        }
    }
    if !is_semantic_type(name.as_str()) || known_name {
        return Err(concat2("invalid or duplicate semantic type: ", name.as_str()));
    }
    let required_fields = match value_strings(e, "required_fields") {
        Err(x) => return Err(x),
        Ok(v) => v,
    };
    let forbidden_fields = match value_strings(e, "forbidden_fields") {
        Err(x) => return Err(x),
        Ok(v) => v,
    };
    let canonical_claim = match value_optional_string(e, "canonical_claim") {
        Err(x) => return Err(x),
        Ok(v) => v,
    };
    let canonical_claims = match value_bool(e, "canonical_claims") {
        Err(x) => return Err(x),
        Ok(v) => v,
    };
    let active_sections = match value_strings(e, "active_sections") {
        Err(x) => return Err(x),
        Ok(v) => v,
    };
    Ok((name, TypeRule { required_fields, forbidden_fields, canonical_claim, canonical_claims, active_sections }))
}

/// Reads the type registry document: a `types` sequence of rule mappings,
/// kept in ascending order of names.
pub fn parse_type_registry(value: &Yaml) -> (r: Result<Vec<(String, TypeRule)>, String>)
    ensures
        match r {
            Ok(v) => type_registry(*value) == Ok::<Seq<(Seq<char>, TypeView)>, Seq<char>>(type_views(v@)),
            Err(x) => type_registry(*value) == Err::<Seq<(Seq<char>, TypeView)>, Seq<char>>(x@),
        },
{
    let list = match value.get("types") {
        Some(v) => match v.as_seq() {
            Some(l) => l,
            None => return Err("types registry must contain a types sequence".to_owned()),
        },
        None => return Err("types registry must contain a types sequence".to_owned()),
    };
    let mut acc: Vec<(String, TypeRule)> = Vec::new();
    let mut i: usize = 0;
    assert(list@.skip(0) =~= list@);
    assert(type_views(acc@) =~= Seq::<(Seq<char>, TypeView)>::empty());
    while i < list.len()
        invariant
            items(field(*value, "types"@)) == Some(list@),
            i <= list.len(),
            type_registry(*value) == types_from(list@.skip(i as int), type_views(acc@)),
        decreases list.len() - i,
    {
        let ghost rest = list@.skip(i as int);
        assert(rest[0] == list@[i as int]);
        assert(rest.drop_first() =~= list@.skip(i + 1));
        match type_from_entry(&list[i], &acc) {
            Err(x) => return Err(x),
            Ok((name, rule)) => insert_type(&mut acc, name, rule),
        }
        i = i + 1;
    }
    assert(list@.skip(i as int).len() == 0);
    Ok(acc)
}

/// The six semantic type names.
pub open spec fn semantic_types() -> Seq<Seq<char>> {
    seq!["entity"@, "concept"@, "system"@, "research"@, "decision"@, "reference"@]
}

/// The problem with the relation at index `k`, given that those before it
/// passed.
pub open spec fn relation_problem(rels: Seq<(Seq<char>, RuleView)>, k: int) -> Option<Seq<char>> {
    let name = rels[k].0;
    let rule = rels[k].1;
    if name == rule.inverse || !valid_slug_spec(rule.inverse) || has_name(rels, rule.inverse) {
        Some("relation "@ + name + " has an invalid or authored inverse"@)
    } else if exists|j: int| 0 <= j < k && #[trigger] rels[j].1.inverse == rule.inverse {
        Some("relation inverse names must be unique: "@ + rule.inverse)
    } else if !rule.self_edges_forbidden {
        Some("relation "@ + name + " must forbid exact self-edges"@)
    } else if exists|t: int|
        0 <= t < rule.source_types.len() + rule.target_types.len() && !is_object_type(
            #[trigger] (rule.source_types + rule.target_types)[t],
        ) {
        Some("relation "@ + name + " contains an unknown endpoint type"@)
    } else {
        None
    }
}

/// The first problem among the relations from index `k` on.
pub open spec fn relations_problem(rels: Seq<(Seq<char>, RuleView)>, k: int) -> Option<Seq<char>>
    decreases rels.len() - k,
{
    if k < 0 || k >= rels.len() {
        None
    } else {
        match relation_problem(rels, k) {
            Some(m) => Some(m),
            None => relations_problem(rels, k + 1),
        }
    }
}

/// The problem with a pair of registries: the type registry must name the
/// six semantic types exactly once; every relation needs a fresh, unique,
/// well-formed inverse name, must forbid exact self-edges, and may only
/// name semantic types at its ends.
pub open spec fn registries_problem(
    rels: Seq<(Seq<char>, RuleView)>,
    types: Seq<(Seq<char>, TypeView)>,
) -> Option<Seq<char>> {
    if types.len() != 6 || exists|t: int| 0 <= t < 6 && !has_name(types, #[trigger] semantic_types()[t]) {
        Some("types registry must define each of the six semantic types exactly once"@)
    } else {
        relations_problem(rels, 0)
    }
}

fn endpoint_types_known(rule: &RelationRule) -> (b: bool)
    ensures
        b == !exists|t: int|
            0 <= t < rule@.source_types.len() + rule@.target_types.len() && !is_object_type(
                #[trigger] (rule@.source_types + rule@.target_types)[t],
            ),
{
    let ghost all = rule@.source_types + rule@.target_types;
    let mut i: usize = 0;
    while i < rule.source_types.len()
        invariant
            all == rule@.source_types + rule@.target_types,
            i <= rule.source_types.len(),
            forall|t: int| 0 <= t < i ==> is_object_type(#[trigger] all[t]),
        decreases rule.source_types.len() - i,
    {
        if !is_semantic_type(rule.source_types[i].as_str()) {
            assert(all[i as int] == rule.source_types@[i as int]@);
            return false;
        }
        i = i + 1;
    }
    let mut j: usize = 0;
    while j < rule.target_types.len()
        invariant
            all == rule@.source_types + rule@.target_types,
            forall|t: int| 0 <= t < rule.source_types.len() + j ==> is_object_type(#[trigger] all[t]),
        decreases rule.target_types.len() - j,
    {
        if !is_semantic_type(rule.target_types[j].as_str()) {
            assert(all[rule.source_types.len() + j] == rule.target_types@[j as int]@);
            return false;
        }
        j = j + 1;
    }
    true
}

/// Checks the relation and type registries against each other.
pub fn validate_registries(relations: &Vec<(String, RelationRule)>, types: &Vec<(String, TypeRule)>) -> (r: Result<(), String>)
    ensures
        outcome(r) == registries_problem(relation_views(relations@), type_views(types@)),
{
    let ghost rv = relation_views(relations@);
    let ghost tv = type_views(types@);
    let names = ["entity", "concept", "system", "research", "decision", "reference"];
    let mut types_ok = types.len() == 6;
    if types_ok {
        let mut t: usize = 0;
        while t < 6
            invariant
                tv == type_views(types@),
                names@ == seq!["entity", "concept", "system", "research", "decision", "reference"],
                t <= 6,
                types_ok == forall|u: int| 0 <= u < t ==> has_name(tv, #[trigger] semantic_types()[u]),
            decreases 6 - t,
        {
            let present = name_known(types, names[t]);
            proof {
                assert(names@[t as int]@ == semantic_types()[t as int]);
                if present {
                    let i = choose|i: int| 0 <= i < types.len() && #[trigger] types@[i].0@ == names@[t as int]@;
                    assert(tv[i].0 == semantic_types()[t as int]);
                } else if has_name(tv, semantic_types()[t as int]) {
                    let i = choose|i: int| 0 <= i < tv.len() && #[trigger] tv[i].0 == semantic_types()[t as int];
                    assert(types@[i].0@ == names@[t as int]@);
                }
            }
            types_ok = types_ok && present;
            t = t + 1;
        }
    }
    if !types_ok {
        return Err("types registry must define each of the six semantic types exactly once".to_owned());
    }
    let mut k: usize = 0;
    assert(registries_problem(rv, tv) == relations_problem(rv, 0));
    while k < relations.len()
        invariant
            rv == relation_views(relations@),
            tv == type_views(types@),
            k <= relations.len(),
            registries_problem(rv, tv) == relations_problem(rv, k as int),
        decreases relations.len() - k,
    {
        let name = relations[k].0.as_str();
        let rule = &relations[k].1;
        let inverse = rule.inverse.as_str();
        assert(rv[k as int].0 == name@ && rv[k as int].1 == rule@);
        let authored = name_known(relations, inverse);
        proof {
            if authored {
                let i = choose|i: int| 0 <= i < relations.len() && #[trigger] relations@[i].0@ == inverse@;
                assert(rv[i].0 == inverse@);
            } else if has_name(rv, inverse@) {
                let i = choose|i: int| 0 <= i < rv.len() && #[trigger] rv[i].0 == inverse@;
                assert(relations@[i].0@ == inverse@);
            }
        }
        if str_eq(name, inverse) || !valid_slug(inverse) || authored {
            let head = concat2("relation ", name);
            return Err(concat2(head.as_str(), " has an invalid or authored inverse"));
        }
        let mut j: usize = 0;
        while j < k
            invariant
                rv == relation_views(relations@),
                k < relations.len(),
                j <= k,
                inverse@ == rv[k as int].1.inverse,
                forall|u: int| 0 <= u < j ==> #[trigger] rv[u].1.inverse != inverse@,
                tv == type_views(types@),
                registries_problem(rv, tv) == relations_problem(rv, k as int),
                !(rv[k as int].0 == rv[k as int].1.inverse || !valid_slug_spec(rv[k as int].1.inverse) || has_name(rv, rv[k as int].1.inverse)),
            decreases k - j,
        {
            if str_eq(relations[j].1.inverse.as_str(), inverse) {
                assert(rv[j as int].1.inverse == inverse@);
                return Err(concat2("relation inverse names must be unique: ", inverse));
            }
            j = j + 1;
        }
        if !rule.self_edges_forbidden {
            let head = concat2("relation ", name);
            return Err(concat2(head.as_str(), " must forbid exact self-edges"));
        }
        if !endpoint_types_known(rule) {
            let head = concat2("relation ", name);
            return Err(concat2(head.as_str(), " contains an unknown endpoint type"));
        }
        assert(relation_problem(rv, k as int) is None);
        k = k + 1;
    }
    Ok(())
}

/// The registries read from the relation and type registry documents and
/// checked against each other.
pub open spec fn registries_spec(relations_doc: Yaml, types_doc: Yaml) -> Result<
    (Seq<(Seq<char>, RuleView)>, Seq<(Seq<char>, TypeView)>),
    Seq<char>,
> {
    match relation_registry(relations_doc) {
        Err(x) => Err(x),
        Ok(rels) => match type_registry(types_doc) {
            Err(x) => Err(x),
            Ok(types) => match registries_problem(rels, types) {
                Some(x) => Err(x),
                None => Ok((rels, types)),
            },
        },
    }
}

/// Reads both registries from their documents and checks them.
pub fn registries_from_documents(relations_doc: &Yaml, types_doc: &Yaml) -> (r: Result<Registries, String>)
    ensures
        match r {
            Ok(reg) => registries_spec(*relations_doc, *types_doc) == Ok::<
                (Seq<(Seq<char>, RuleView)>, Seq<(Seq<char>, TypeView)>),
                Seq<char>,
            >((relation_views(reg.relations@), type_views(reg.types@))),
            Err(x) => registries_spec(*relations_doc, *types_doc) == Err::<
                (Seq<(Seq<char>, RuleView)>, Seq<(Seq<char>, TypeView)>),
                Seq<char>,
            >(x@),
        },
{
    let relations = match parse_relation_registry(relations_doc) {
        Err(x) => return Err(x),
        Ok(r) => r,
    };
    let types = match parse_type_registry(types_doc) {
        Err(x) => return Err(x),
        Ok(t) => t,
    };
    if let Err(x) = validate_registries(&relations, &types) {
        return Err(x);
    }
    Ok(Registries { relations, types })
}

} // verus!
