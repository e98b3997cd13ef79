//! Unix paths as byte strings.
//!
//! A path is a byte string; what it names is the list of its components. Repeated slashes, a
//! trailing slash, and `.` anywhere but in front are not components.
use vstd::prelude::*;
use crate::bytes::{
    copied, is_lit, lit, same, split, split_on, views, SLASH,
};

verus! {

/// One component of a path.
#[derive(Debug)]
pub enum Component {
    Root,
    Current,
    Parent,
    Normal(Vec<u8>),
}

/// The model of a [`Component`].
pub enum Part {
    Root,
    Current,
    Parent,
    Normal(Seq<u8>),
}

impl View for Component {
    type V = Part;

    open spec fn view(&self) -> Part {
        match self {
            Component::Root => Part::Root,
            Component::Current => Part::Current,
            Component::Parent => Part::Parent,
            Component::Normal(name) => Part::Normal(name@),
        }
    }
}

pub open spec fn part_views(list: Seq<Component>) -> Seq<Part> {
    list.map_values(|c: Component| c@)
}

pub broadcast proof fn lemma_part_views_push(list: Seq<Component>, c: Component)
    ensures
        #[trigger] part_views(list.push(c)) == part_views(list).push(c@),
{
    assert(part_views(list.push(c)) =~= part_views(list).push(c@));
}

pub open spec fn absolute(path: Seq<u8>) -> bool {
    path.len() > 0 && path[0] == SLASH
}

/// The component that one field between slashes stands for, if any.
pub open spec fn field_part(field: Seq<u8>, first: bool) -> Option<Part> {
    if field.len() == 0 {
        None
    } else if field == lit(".") {
        if first {
            Some(Part::Current)
        } else {
            None
        }
    } else if field == lit("..") {
        Some(Part::Parent)
    } else {
        Some(Part::Normal(field))
    }
}

/// The components that the first `n` fields stand for.
pub open spec fn field_parts(fields: Seq<Seq<u8>>, n: int) -> Seq<Part>
    decreases n,
{
    if n <= 0 {
        seq![]
    } else {
        match field_part(fields[n - 1], n == 1) {
            Some(part) => field_parts(fields, n - 1).push(part),
            None => field_parts(fields, n - 1),
        }
    }
}

/// The components of a path.
pub open spec fn parts(path: Seq<u8>) -> Seq<Part> {
    let fields = split(path, SLASH);
    let named = field_parts(fields, fields.len() as int);
    if absolute(path) {
        seq![Part::Root] + named
    } else {
        named
    }
}

/// Whether two paths have the same components.
pub open spec fn same_path(a: Seq<u8>, b: Seq<u8>) -> bool {
    parts(a) == parts(b)
}

/// Whether `path` is `base` or lies below it.
pub open spec fn within(path: Seq<u8>, base: Seq<u8>) -> bool {
    parts(base).len() <= parts(path).len() && parts(path).subrange(0, parts(base).len() as int)
        == parts(base)
}

/// The last component, when it is a name.
pub open spec fn last_name(path: Seq<u8>) -> Option<Seq<u8>> {
    let list = parts(path);
    if list.len() == 0 {
        None
    } else {
        match list.last() {
            Part::Normal(name) => Some(name),
            _ => None,
        }
    }
}

/// `path` taken relative to `base`; an absolute `path` stands for itself.
pub open spec fn child(base: Seq<u8>, path: Seq<u8>) -> Seq<u8> {
    if absolute(path) {
        path
    } else if base.len() > 0 && base.last() != SLASH {
        base.push(SLASH) + path
    } else {
        base + path
    }
}

/// Names with one slash between each two.
pub open spec fn joined_names(names: Seq<Seq<u8>>) -> Seq<u8>
    decreases names.len(),
{
    if names.len() == 0 {
        seq![]
    } else if names.len() == 1 {
        names[0]
    } else {
        joined_names(names.drop_last()).push(SLASH) + names.last()
    }
}

/// How a component is written.
pub open spec fn part_text(part: Part) -> Seq<u8> {
    match part {
        Part::Root => lit("/"),
        Part::Current => lit("."),
        Part::Parent => lit(".."),
        Part::Normal(name) => name,
    }
}

/// The first `n` components, written as a path.
pub open spec fn rendered(list: Seq<Part>, n: int) -> Seq<u8>
    decreases n,
{
    if n <= 0 {
        seq![]
    } else {
        child(rendered(list, n - 1), part_text(list[n - 1]))
    }
}

/// How many of the first `n` fields there are up to the last that stands for a component.
pub open spec fn last_part(fields: Seq<Seq<u8>>, n: int) -> int
    decreases n,
{
    if n <= 0 {
        0
    } else if field_part(fields[n - 1], n == 1) is Some {
        n
    } else {
        last_part(fields, n - 1)
    }
}

/// A path up to the component before its last, as it is written there. The root, and an empty
/// path, have no parent.
pub open spec fn parent_of(path: Seq<u8>) -> Option<Seq<u8>> {
    let fields = split(path, SLASH);
    let last = last_part(fields, fields.len() as int);
    let before = last_part(fields, last - 1);
    if last == 0 {
        None
    } else if before > 0 {
        Some(joined_names(fields.take(before)))
    } else if absolute(path) {
        Some(seq![SLASH])
    } else {
        Some(seq![])
    }
}

proof fn lemma_last_part(fields: Seq<Seq<u8>>, n: int)
    requires
        0 <= n <= fields.len(),
    ensures
        0 <= last_part(fields, n) <= n,
        last_part(fields, n) > 0 ==> field_part(
            fields[last_part(fields, n) - 1],
            last_part(fields, n) == 1,
        ) is Some,
        field_parts(fields, n) == field_parts(fields, last_part(fields, n)),
    decreases n,
{
    if n > 0 && field_part(fields[n - 1], n == 1) is None {
        lemma_last_part(fields, n - 1);
    }
}

proof fn lemma_joined_first(first: Seq<u8>, rest: Seq<Seq<u8>>)
    requires
        rest.len() > 0,
    ensures
        joined_names(seq![first] + rest) == first.push(SLASH) + joined_names(rest),
    decreases rest.len(),
{
    let all = seq![first] + rest;
    assert(all.last() == rest.last());
    if rest.len() == 1 {
        assert(all.drop_last() =~= seq![first]);
        assert(joined_names(seq![first]) == first);
        assert(joined_names(rest) == rest[0]);
    } else {
        assert(all.drop_last() =~= seq![first] + rest.drop_last());
        lemma_joined_first(first, rest.drop_last());
        assert((first.push(SLASH) + joined_names(rest.drop_last())).push(SLASH) + rest.last()
            =~= first.push(SLASH) + (joined_names(rest.drop_last()).push(SLASH) + rest.last()));
    }
}

/// The fields of a path, with the slashes between them, are the path.
proof fn lemma_fields_joined(path: Seq<u8>)
    ensures
        joined_names(split(path, SLASH)) == path,
    decreases path.len(),
{
    let k = crate::bytes::find(path, SLASH);
    crate::bytes::lemma_find_bounds(path, SLASH, 0);
    if k < path.len() {
        let rest = crate::bytes::after(path, k + 1);
        lemma_fields_joined(rest);
        crate::bytes::lemma_split_fields(rest, SLASH);
        lemma_joined_first(path.subrange(0, k), split(rest, SLASH));
        assert(path.subrange(0, k).push(SLASH) + rest =~= path);
    }
}

/// The first fields, joined, are where all of them begin.
proof fn lemma_joined_prefix(fields: Seq<Seq<u8>>, n: int, m: int)
    requires
        0 < n <= m <= fields.len(),
    ensures
        joined_names(fields.take(n)).is_prefix_of(joined_names(fields.take(m))),
        joined_names(fields.take(n)).len() + (m - n) <= joined_names(fields.take(m)).len(),
        fields[n - 1].len() <= joined_names(fields.take(n)).len(),
    decreases m - n,
{
    if n < m {
        lemma_joined_prefix(fields, n, m - 1);
        assert(fields.take(m).drop_last() =~= fields.take(m - 1));
    }
}

/// Fields without slashes are found again between the slashes that join them.
proof fn lemma_joined_fields_split(fields: Seq<Seq<u8>>)
    requires
        fields.len() > 0,
        forall|i: int| 0 <= i < fields.len() ==> !(#[trigger] fields[i]).contains(SLASH),
    ensures
        split(joined_names(fields), SLASH) == fields,
    decreases fields.len(),
{
    let last = fields.last();
    let front = fields.drop_last();
    assert(!fields[fields.len() - 1].contains(SLASH));
    crate::bytes::lemma_find_is(last, SLASH, 0, last.len() as int);
    assert(split(last, SLASH) =~= seq![last]);
    if fields.len() == 1 {
        assert(fields =~= seq![last]);
    } else {
        assert forall|i: int| 0 <= i < front.len() implies !(#[trigger] front[i]).contains(
            SLASH,
        ) by {
            assert(!fields[i].contains(SLASH));
        }
        lemma_joined_fields_split(front);
        crate::bytes::lemma_split_joined(joined_names(front), last, SLASH);
        assert(front + seq![last] =~= fields);
    }
}

/// A parent is the beginning of its path, as it is written, and has the same components but for the
/// last. Only the root, and a path without components, have none.
pub proof fn parents_lack_the_last_component(path: Seq<u8>)
    ensures
        parent_of(path) is None <==> parts(path).len() == 0 || parts(path).last() == Part::Root,
        parent_of(path) matches Some(parent) ==> {
            &&& parent.is_prefix_of(path)
            &&& parent.len() < path.len()
            &&& parts(path).len() > 0
            &&& parts(parent) == parts(path).drop_last()
        },
{
    let fields = split(path, SLASH);
    let n = fields.len() as int;
    crate::bytes::lemma_split_fields(path, SLASH);
    crate::bytes::lemma_find_bounds(path, SLASH, 0);
    lemma_fields_joined(path);
    assert(fields.take(n) =~= fields);
    lemma_last_part(fields, n);
    let last = last_part(fields, n);
    let named = field_parts(fields, n);
    if last == 0 {
        assert(named =~= seq![]);
        assert(parts(path) =~= if absolute(path) {
            seq![Part::Root]
        } else {
            seq![]
        });
    } else {
        lemma_last_part(fields, last - 1);
        let before = last_part(fields, last - 1);
        let front = field_parts(fields, before);
        assert(named.drop_last() =~= front);
        assert(named.last() != Part::Root);
        assert(parts(path).drop_last() =~= if absolute(path) {
            seq![Part::Root] + front
        } else {
            front
        });
        lemma_joined_prefix(fields, last, n);
        if before > 0 {
            let kept = fields.take(before);
            let parent = joined_names(kept);
            lemma_joined_prefix(fields, before, n);
            assert forall|i: int| 0 <= i < kept.len() implies !(#[trigger] kept[i]).contains(
                SLASH,
            ) by {
                assert(!fields[i].contains(SLASH));
            }
            lemma_joined_fields_split(kept);
            assert(kept + fields.skip(before) =~= fields);
            lemma_field_parts_prefix(kept, fields.skip(before), before);
            assert(parent.len() > 0);
            assert(parent[0] == path[0]);
            assert(absolute(parent) == absolute(path));
        } else if absolute(path) {
            let root = seq![SLASH];
            if path.len() == 1 {
                assert(path =~= root);
            }
            crate::bytes::lemma_split_joined(seq![], seq![], SLASH);
            assert(Seq::<u8>::empty().push(SLASH) + Seq::<u8>::empty() =~= root);
            assert(split(seq![], SLASH) =~= seq![Seq::<u8>::empty()]);
            assert(split(root, SLASH) =~= seq![Seq::<u8>::empty(), Seq::<u8>::empty()]);
            reveal_with_fuel(field_parts, 3);
            reveal_with_fuel(last_part, 3);
            assert(parts(root) =~= seq![Part::Root]);
            assert(front =~= seq![]);
            assert(root.is_prefix_of(path));
        } else {
            let none = Seq::<u8>::empty();
            assert(split(none, SLASH) =~= seq![none]);
            reveal_with_fuel(field_parts, 2);
            assert(parts(none) =~= seq![]);
            assert(front =~= seq![]);
        }
    }
}

/// A path lies within itself.
pub proof fn path_is_within_itself(path: Seq<u8>)
    ensures
        within(path, path),
{
    assert(parts(path).subrange(0, parts(path).len() as int) =~= parts(path));
}

/// What lies within something within a base lies within the base.
pub proof fn within_is_transitive(a: Seq<u8>, b: Seq<u8>, c: Seq<u8>)
    requires
        within(a, b),
        within(b, c),
    ensures
        within(a, c),
{
    let n = parts(c).len() as int;
    let m = parts(b).len() as int;
    assert(parts(a).subrange(0, n) =~= parts(a).subrange(0, m).subrange(0, n));
}

/// Two paths that lie within each other have the same components.
pub proof fn mutual_containment_is_identity(a: Seq<u8>, b: Seq<u8>)
    requires
        within(a, b),
        within(b, a),
    ensures
        same_path(a, b),
{
    let n = parts(a).len() as int;
    assert(parts(a).subrange(0, n) =~= parts(a));
}

proof fn lemma_field_parts_joined(a: Seq<Seq<u8>>, b: Seq<Seq<u8>>, n: int)
    requires
        a.len() >= 1,
        0 <= n <= b.len(),
    ensures
        field_parts(a + b, a.len() + n) == field_parts(a, a.len() as int) + later_parts(b, n),
    decreases n,
{
    if n == 0 {
        lemma_field_parts_prefix(a, b, a.len() as int);
        assert(later_parts(b, 0) =~= seq![]);
        assert(field_parts(a, a.len() as int) + later_parts(b, 0) =~= field_parts(
            a,
            a.len() as int,
        ));
    } else {
        lemma_field_parts_joined(a, b, n - 1);
        assert((a + b)[a.len() + n - 1] == b[n - 1]);
        match field_part(b[n - 1], false) {
            Some(part) => {
                assert(field_parts(a, a.len() as int) + later_parts(b, n - 1).push(part)
                    =~= (field_parts(a, a.len() as int) + later_parts(b, n - 1)).push(part));
            },
            None => {},
        }
    }
}

proof fn lemma_field_parts_prefix(a: Seq<Seq<u8>>, b: Seq<Seq<u8>>, n: int)
    requires
        0 <= n <= a.len(),
    ensures
        field_parts(a + b, n) == field_parts(a, n),
    decreases n,
{
    if n > 0 {
        lemma_field_parts_prefix(a, b, n - 1);
    }
}

/// The components that the first `n` of some fields stand for, where other fields go before.
pub open spec fn later_parts(fields: Seq<Seq<u8>>, n: int) -> Seq<Part>
    decreases n,
{
    if n <= 0 {
        seq![]
    } else {
        match field_part(fields[n - 1], false) {
            Some(part) => later_parts(fields, n - 1).push(part),
            None => later_parts(fields, n - 1),
        }
    }
}

/// A relative path joined to a base has the components of the base, and then its own; a leading
/// `.` is no component there.
pub proof fn joining_adds_components(base: Seq<u8>, path: Seq<u8>)
    requires
        base.len() > 0,
        !absolute(path),
    ensures
        parts(child(base, path)) == parts(base) + later_parts(
            split(path, SLASH),
            split(path, SLASH).len() as int,
        ),
        within(child(base, path), base),
{
    let whole = child(base, path);
    let fields = split(path, SLASH);
    let later = later_parts(fields, fields.len() as int);
    crate::bytes::lemma_split_fields(base, SLASH);
    crate::bytes::lemma_split_fields(path, SLASH);
    assert(absolute(whole) == absolute(base));
    if base.last() != SLASH {
        crate::bytes::lemma_split_joined(base, path, SLASH);
        lemma_field_parts_joined(split(base, SLASH), fields, fields.len() as int);
    } else {
        let front = base.drop_last();
        assert(front.push(SLASH) =~= base);
        assert(whole =~= front.push(SLASH) + path);
        crate::bytes::lemma_split_fields(front, SLASH);
        crate::bytes::lemma_split_joined(front, path, SLASH);
        lemma_field_parts_joined(split(front, SLASH), fields, fields.len() as int);
        let none: Seq<u8> = seq![];
        assert(front.push(SLASH) + none =~= base);
        crate::bytes::lemma_split_joined(front, none, SLASH);
        crate::bytes::lemma_find_bounds(none, SLASH, 0);
        assert(split(none, SLASH) =~= seq![none]);
        lemma_field_parts_joined(split(front, SLASH), seq![none], 1);
        assert(later_parts(seq![none], 0) =~= seq![]);
        assert(later_parts(seq![none], 1) =~= seq![]);
        assert(split(base, SLASH) =~= split(front, SLASH) + seq![none]);
        assert(field_parts(split(base, SLASH), split(base, SLASH).len() as int) =~= field_parts(
            split(front, SLASH),
            split(front, SLASH).len() as int,
        ));
    }
    assert(parts(whole) =~= parts(base) + later);
    assert(parts(whole).subrange(0, parts(base).len() as int) =~= parts(base));
}

/// Whether a byte string is the name of one component.
pub open spec fn names_one(name: Seq<u8>) -> bool {
    name.len() > 0 && name != lit(".") && name != lit("..") && !name.contains(SLASH)
}

proof fn lemma_field_parts_named(fields: Seq<Seq<u8>>, n: int)
    requires
        0 <= n <= fields.len(),
        forall|i: int| 0 <= i < fields.len() ==> !(#[trigger] fields[i]).contains(SLASH),
    ensures
        forall|i: int|
            0 <= i < field_parts(fields, n).len() ==> match #[trigger] field_parts(fields, n)[i] {
                Part::Normal(name) => names_one(name),
                _ => true,
            },
    decreases n,
{
    if n > 0 {
        lemma_field_parts_named(fields, n - 1);
    }
}

/// What a path names its components by are the names of one component each.
pub proof fn components_are_named(path: Seq<u8>)
    ensures
        forall|i: int|
            0 <= i < parts(path).len() ==> match #[trigger] parts(path)[i] {
                Part::Normal(name) => names_one(name),
                _ => true,
            },
{
    let fields = split(path, SLASH);
    crate::bytes::lemma_split_fields(path, SLASH);
    lemma_field_parts_named(fields, fields.len() as int);
    if absolute(path) {
        let named = field_parts(fields, fields.len() as int);
        assert forall|i: int| 0 <= i < parts(path).len() implies match #[trigger] parts(path)[i] {
            Part::Normal(name) => names_one(name),
            _ => true,
        } by {
            if i > 0 {
                assert(parts(path)[i] == named[i - 1]);
            }
        }
    }
}

/// Names joined with slashes are taken apart into the same names.
pub proof fn joined_names_split_again(names: Seq<Seq<u8>>)
    requires
        names.len() > 0,
        forall|i: int| 0 <= i < names.len() ==> names_one(#[trigger] names[i]),
    ensures
        split(joined_names(names), SLASH) == names,
        later_parts(names, names.len() as int) == names.map_values(|n: Seq<u8>| Part::Normal(n)),
        !absolute(joined_names(names)),
        joined_names(names).len() > 0,
    decreases names.len(),
{
    let last = names.last();
    let front = names.drop_last();
    assert(names_one(names[names.len() - 1]));
    crate::bytes::lemma_find_is(last, SLASH, 0, last.len() as int);
    assert(split(last, SLASH) =~= seq![last]);
    if names.len() == 1 {
        assert(names =~= seq![last]);
        assert(last[0] != SLASH) by {
            if last[0] == SLASH {
                assert(last.contains(SLASH));
            }
        }
        assert(later_parts(names, 0) =~= seq![]);
        assert(later_parts(names, 1) =~= names.map_values(|n: Seq<u8>| Part::Normal(n)));
    } else {
        assert forall|i: int| 0 <= i < front.len() implies names_one(#[trigger] front[i]) by {
            assert(names_one(names[i]));
        }
        joined_names_split_again(front);
        crate::bytes::lemma_split_joined(joined_names(front), last, SLASH);
        assert(front + seq![last] =~= names);
        lemma_later_parts_prefix(front, seq![last], front.len() as int);
        assert(later_parts(names, names.len() as int) =~= names.map_values(
            |n: Seq<u8>| Part::Normal(n),
        ));
        assert(joined_names(names)[0] == joined_names(front)[0]);
    }
}

/// A relative path that is made of names has just these for its components.
pub proof fn joined_names_are_the_components(names: Seq<Seq<u8>>)
    requires
        names.len() > 0,
        forall|i: int| 0 <= i < names.len() ==> names_one(#[trigger] names[i]),
    ensures
        !absolute(joined_names(names)),
        parts(joined_names(names)) == names.map_values(|n: Seq<u8>| Part::Normal(n)),
{
    joined_names_split_again(names);
    lemma_named_fields(names, names.len() as int);
    assert(names.take(names.len() as int) =~= names);
}

proof fn lemma_named_fields(names: Seq<Seq<u8>>, n: int)
    requires
        0 <= n <= names.len(),
        forall|i: int| 0 <= i < names.len() ==> names_one(#[trigger] names[i]),
    ensures
        field_parts(names, n) == names.take(n).map_values(|n: Seq<u8>| Part::Normal(n)),
    decreases n,
{
    if n > 0 {
        lemma_named_fields(names, n - 1);
        assert(names_one(names[n - 1]));
        assert(names.take(n).drop_last() =~= names.take(n - 1));
    }
    assert(field_parts(names, n) =~= names.take(n).map_values(|n: Seq<u8>| Part::Normal(n)));
}

proof fn lemma_later_parts_prefix(a: Seq<Seq<u8>>, b: Seq<Seq<u8>>, n: int)
    requires
        0 <= n <= a.len(),
    ensures
        later_parts(a + b, n) == later_parts(a, n),
    decreases n,
{
    if n > 0 {
        lemma_later_parts_prefix(a, b, n - 1);
    }
}

/// A component other than a root and `.` stands alone between slashes, wherever it is.
proof fn lemma_one_part(part: Part)
    requires
        match part {
            Part::Normal(name) => names_one(name),
            Part::Parent => true,
            _ => false,
        },
    ensures
        part_text(part).len() > 0,
        !absolute(part_text(part)),
        split(part_text(part), SLASH) == seq![part_text(part)],
        field_part(part_text(part), true) == Some(part),
        field_part(part_text(part), false) == Some(part),
{
    let text = part_text(part);
    reveal_strlit(".");
    reveal_strlit("..");
    vstd::utf8::is_ascii_chars_encode_utf8("."@);
    vstd::utf8::is_ascii_chars_encode_utf8(".."@);
    assert(lit(".").len() == 1);
    assert(lit("..").len() == 2);
    assert(lit("..")[0] == 0x2e && lit("..")[1] == 0x2e);
    assert(!text.contains(SLASH));
    assert(text[0] != SLASH) by {
        if text[0] == SLASH {
            assert(text.contains(SLASH));
        }
    }
    crate::bytes::lemma_find_is(text, SLASH, 0, text.len() as int);
    assert(split(text, SLASH) =~= seq![text]);
}

/// Components other than a root and `.`, written as a path, are read back as they were.
pub proof fn written_components_read_back(list: Seq<Part>, n: int)
    requires
        0 <= n <= list.len(),
        forall|i: int|
            0 <= i < n ==> match #[trigger] list[i] {
                Part::Normal(name) => names_one(name),
                Part::Parent => true,
                _ => false,
            },
    ensures
        !absolute(rendered(list, n)),
        n > 0 ==> rendered(list, n).len() > 0,
        parts(rendered(list, n)) == list.take(n),
    decreases n,
{
    if n == 0 {
        crate::bytes::lemma_find_bounds(rendered(list, 0), SLASH, 0);
        assert(split(rendered(list, 0), SLASH) =~= seq![rendered(list, 0)]);
        assert(field_parts(seq![rendered(list, 0)], 0) =~= seq![]);
        assert(parts(rendered(list, 0)) =~= list.take(0));
    } else {
        written_components_read_back(list, n - 1);
        let base = rendered(list, n - 1);
        let part = list[n - 1];
        let text = part_text(part);
        lemma_one_part(part);
        assert(list.take(n) =~= list.take(n - 1).push(part));
        let fields = seq![text];
        if n == 1 {
            assert(child(base, text) =~= text);
            assert(field_parts(fields, 0) =~= seq![]);
            assert(field_parts(fields, 1) =~= seq![part]);
            assert(parts(text) =~= list.take(1));
        } else {
            joining_adds_components(base, text);
            assert(later_parts(fields, 0) =~= seq![]);
            assert(later_parts(fields, 1) =~= seq![part]);
            assert(parts(base) + seq![part] =~= list.take(n));
        }
    }
}

pub fn is_absolute(path: &[u8]) -> (r: bool)
    ensures
        r == absolute(path@),
{
    path.len() > 0 && path[0] == SLASH
}

/// The components of a path, in order.
pub fn components(path: &[u8]) -> (r: Vec<Component>)
    ensures
        part_views(r@) == parts(path@),
{
    broadcast use lemma_part_views_push;

    let fields = split_on(path, SLASH);
    let mut out: Vec<Component> = Vec::new();
    let rooted = is_absolute(path);
    proof {
        assert(part_views(out@) =~= seq![]);
    }
    if rooted {
        out.push(Component::Root);
    }
    let ghost head = part_views(out@);
    let mut i: usize = 0;
    proof {
        assert(head + field_parts(views(fields@), 0) =~= head);
    }
    while i < fields.len()
        invariant
            i <= fields.len(),
            part_views(out@) == head + field_parts(views(fields@), i as int),
        decreases fields.len() - i,
    {
        broadcast use lemma_part_views_push;

        let field = fields[i].as_slice();
        let ghost before = field_parts(views(fields@), i as int);
        proof {
            assert(views(fields@)[i as int] == field@);
        }
        if field.len() == 0 {
        } else if is_lit(field, ".") {
            if i == 0 {
                out.push(Component::Current);
                proof {
                    assert(head + before.push(Part::Current) =~= (head + before).push(
                        Part::Current,
                    ));
                }
            }
        } else if is_lit(field, "..") {
            out.push(Component::Parent);
            proof {
                assert(head + before.push(Part::Parent) =~= (head + before).push(Part::Parent));
            }
        } else {
            out.push(Component::Normal(copied(field)));
            proof {
                assert(head + before.push(Part::Normal(field@)) =~= (head + before).push(
                    Part::Normal(field@),
                ));
            }
        }
        i = i + 1;
    }
    proof {
        assert(head + field_parts(views(fields@), i as int) =~= parts(path@));
    }
    out
}

fn same_component(a: &Component, b: &Component) -> (r: bool)
    ensures
        r == (a@ == b@),
{
    match (a, b) {
        (Component::Root, Component::Root) => true,
        (Component::Current, Component::Current) => true,
        (Component::Parent, Component::Parent) => true,
        (Component::Normal(x), Component::Normal(y)) => same(x.as_slice(), y.as_slice()),
        _ => false,
    }
}

/// Whether `list` starts with the components of `head`.
fn leads(list: &Vec<Component>, head: &Vec<Component>) -> (r: bool)
    ensures
        r == (head@.len() <= list@.len() && part_views(list@).subrange(0, head@.len() as int)
            == part_views(head@)),
{
    if head.len() > list.len() {
        return false;
    }
    let mut i: usize = 0;
    while i < head.len()
        invariant
            head.len() <= list.len(),
            i <= head.len(),
            forall|j: int| 0 <= j < i ==> (#[trigger] list@[j])@ == head@[j]@,
        decreases head.len() - i,
    {
        if !same_component(&list[i], &head[i]) {
            proof {
                assert(part_views(list@).subrange(0, head@.len() as int)[i as int]
                    == list@[i as int]@);
                assert(part_views(head@)[i as int] == head@[i as int]@);
            }
            return false;
        }
        i = i + 1;
    }
    proof {
        assert forall|j: int| 0 <= j < head@.len() implies part_views(list@).subrange(
            0,
            head@.len() as int,
        )[j] == #[trigger] part_views(head@)[j] by {
            assert(list@[j]@ == head@[j]@);
        }
        assert(part_views(list@).subrange(0, head@.len() as int) =~= part_views(head@));
    }
    true
}

/// Whether `path` is `base` or lies below it, component by component.
pub fn is_within(path: &[u8], base: &[u8]) -> (r: bool)
    ensures
        r == within(path@, base@),
{
    let list = components(path);
    let head = components(base);
    proof {
        assert(part_views(list@).len() == list@.len());
        assert(part_views(head@).len() == head@.len());
    }
    leads(&list, &head)
}

/// Whether two paths have the same components.
pub fn is_same_path(a: &[u8], b: &[u8]) -> (r: bool)
    ensures
        r == same_path(a@, b@),
{
    let x = components(a);
    let y = components(b);
    proof {
        assert(part_views(x@).len() == x@.len());
        assert(part_views(y@).len() == y@.len());
        assert(part_views(x@).subrange(0, x@.len() as int) =~= part_views(x@));
    }
    x.len() == y.len() && leads(&x, &y)
}

/// The last component, when it is a name.
pub fn file_name(path: &[u8]) -> (r: Option<Vec<u8>>)
    ensures
        crate::bytes::opt_view(r) == last_name(path@),
{
    let list = components(path);
    proof {
        assert(part_views(list@).len() == list@.len());
    }
    if list.len() == 0 {
        return None;
    }
    proof {
        assert(parts(path@).last() == list@[list@.len() - 1]@);
    }
    match &list[list.len() - 1] {
        Component::Normal(name) => Some(copied(name.as_slice())),
        _ => None,
    }
}

/// Names with one slash between each two.
pub fn join_names(names: &Vec<Vec<u8>>) -> (r: Vec<u8>)
    ensures
        r@ == joined_names(views(names@)),
{
    proof {
        assert(views(names@).take(names@.len() as int) =~= views(names@));
    }
    join_first(names, names.len())
}

/// The first names with one slash between each two.
fn join_first(names: &Vec<Vec<u8>>, n: usize) -> (r: Vec<u8>)
    requires
        n <= names@.len(),
    ensures
        r@ == joined_names(views(names@).take(n as int)),
{
    let ghost all = views(names@);
    let mut out: Vec<u8> = Vec::new();
    let mut i: usize = 0;
    proof {
        assert(out@ =~= joined_names(all.subrange(0, 0)));
    }
    while i < n
        invariant
            i <= n <= names.len(),
            all == views(names@),
            all.len() == names@.len(),
            out@ == joined_names(all.subrange(0, i as int)),
        decreases n - i,
    {
        if i > 0 {
            out.push(SLASH);
        }
        out.extend_from_slice(names[i].as_slice());
        proof {
            let taken = all.subrange(0, i + 1);
            assert(taken.drop_last() =~= all.subrange(0, i as int));
            assert(taken.last() == names@[i as int]@);
        }
        i = i + 1;
    }
    out
}

impl Component {
    /// How the component is written.
    pub fn text(&self) -> (r: Vec<u8>)
        ensures
            r@ == part_text(self@),
    {
        match self {
            Component::Root => crate::bytes::bytes_of("/"),
            Component::Current => crate::bytes::bytes_of("."),
            Component::Parent => crate::bytes::bytes_of(".."),
            Component::Normal(name) => copied(name.as_slice()),
        }
    }
}

/// The first components, written as a path.
pub fn render(list: &Vec<Component>, n: usize) -> (r: Vec<u8>)
    requires
        n <= list.len(),
    ensures
        r@ == rendered(part_views(list@), n as int),
{
    let mut out: Vec<u8> = Vec::new();
    let mut i: usize = 0;
    proof {
        assert(out@ =~= rendered(part_views(list@), 0));
    }
    while i < n
        invariant
            i <= n <= list.len(),
            out@ == rendered(part_views(list@), i as int),
        decreases n - i,
    {
        proof {
            assert(part_views(list@)[i as int] == list@[i as int]@);
        }
        out = match &list[i] {
            Component::Root => join_word(out.as_slice(), "/"),
            Component::Current => join_word(out.as_slice(), "."),
            Component::Parent => join_word(out.as_slice(), ".."),
            Component::Normal(name) => join_path(out.as_slice(), name.as_slice()),
        };
        i = i + 1;
    }
    out
}

fn is_part(field: &[u8], first: bool) -> (r: bool)
    ensures
        r == (field_part(field@, first) is Some),
{
    field.len() > 0 && (first || !is_lit(field, "."))
}

fn find_last_part(fields: &Vec<Vec<u8>>, n: usize) -> (r: usize)
    requires
        n <= fields@.len(),
    ensures
        r == last_part(views(fields@), n as int),
        r <= n,
{
    let mut i: usize = n;
    while i > 0
        invariant
            i <= n <= fields@.len(),
            last_part(views(fields@), n as int) == last_part(views(fields@), i as int),
        decreases i,
    {
        proof {
            assert(views(fields@)[i - 1] == fields@[i - 1]@);
        }
        if is_part(fields[i - 1].as_slice(), i == 1) {
            return i;
        }
        i = i - 1;
    }
    0
}

/// A path up to the component before its last.
pub fn parent_path(path: &[u8]) -> (r: Option<Vec<u8>>)
    ensures
        crate::bytes::opt_view(r) == parent_of(path@),
{
    let fields = split_on(path, SLASH);
    proof {
        assert(views(fields@).len() == fields@.len());
    }
    let last: usize = find_last_part(&fields, fields.len());
    if last == 0 {
        return None;
    }
    let before: usize = find_last_part(&fields, last - 1);
    if before > 0 {
        return Some(join_first(&fields, before));
    }
    let mut out: Vec<u8> = Vec::new();
    if is_absolute(path) {
        out.push(SLASH);
    }
    proof {
        assert(out@ =~= if absolute(path@) {
            seq![SLASH]
        } else {
            seq![]
        });
    }
    Some(out)
}

/// `path` taken relative to `base`.
pub fn join_path(base: &[u8], path: &[u8]) -> (r: Vec<u8>)
    ensures
        r@ == child(base@, path@),
{
    if is_absolute(path) {
        return copied(path);
    }
    let mut out = copied(base);
    if base.len() > 0 && base[base.len() - 1] != SLASH {
        out.push(SLASH);
    }
    out.extend_from_slice(path);
    out
}

/// `base` joined with a fixed relative path.
pub fn join_word(base: &[u8], word: &str) -> (r: Vec<u8>)
    ensures
        r@ == child(base@, lit(word)),
{
    join_path(base, word.as_bytes())
}

} // verus!
