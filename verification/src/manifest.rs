//! Setting values at dotted paths of a TOML manifest, keeping the rest of the text.
use crate::project::{TomlEntry, TomlValue};
use crate::text::{split_on, split_text_on};
use vstd::prelude::*;

verus! {

#[verifier::external_type_specification]
#[verifier::external_body]
pub struct ExDocumentMut(toml_edit::DocumentMut);

#[verifier::external_type_specification]
#[verifier::external_body]
pub struct ExItem(toml_edit::Item);

#[verifier::external_type_specification]
#[verifier::external_body]
pub struct ExTomlError(toml_edit::TomlError);

/// Why a manifest could not be updated.
pub enum ManifestError {
    /// The text is not a TOML document; the parser's message.
    Parse(String),
    /// A path goes through a value that is not a table.
    PathNotFound(String),
}

/// The kind of an item of a TOML document: a table, an inline table, an empty item,
/// an array of tables, a value that was there, or a value that was set.
pub enum TomlNode {
    Table,
    InlineTable,
    Empty,
    ArrayOfTables,
    Scalar,
    Written(TomlValue),
}

/// Whether toml_edit's parser accepts a text as a TOML document.
pub uninterp spec fn toml_parses(text: Seq<char>) -> bool;

/// The items of the document that toml_edit parses from a text, by key path.
pub uninterp spec fn parsed_nodes(text: Seq<char>) -> Map<Seq<Seq<char>>, TomlNode>;

/// The items of a document, by key path from its root.
pub uninterp spec fn doc_nodes(doc: toml_edit::DocumentMut) -> Map<Seq<Seq<char>>, TomlNode>;

/// The items under an item, by key path from it (the item itself at the empty path).
pub uninterp spec fn item_nodes(item: toml_edit::Item) -> Map<Seq<Seq<char>>, TomlNode>;

/// The text that toml_edit's `Display` writes of a document.
pub uninterp spec fn doc_text(doc: toml_edit::DocumentMut) -> Seq<char>;

/// The kind of the item at the root of a tree, if the tree has one.
pub open spec fn root_node(m: Map<Seq<Seq<char>>, TomlNode>) -> Option<TomlNode> {
    if m.contains_key(Seq::empty()) {
        Some(m[Seq::empty()])
    } else {
        None
    }
}

/// A key can be looked up in an item of this kind: a table, an inline table, or an
/// empty item, which becomes an inline table.
pub open spec fn can_enter(k: Option<TomlNode>) -> bool {
    match k {
        Some(TomlNode::Table) | Some(TomlNode::InlineTable) | Some(TomlNode::Empty) => true,
        _ => false,
    }
}

/// The subtree under `key`.
pub open spec fn child(m: Map<Seq<Seq<char>>, TomlNode>, key: Seq<char>) -> Map<Seq<Seq<char>>, TomlNode> {
    Map::new(|p: Seq<Seq<char>>| m.contains_key(seq![key] + p), |p: Seq<Seq<char>>| m[seq![key] + p])
}

/// The item reached by looking up `key`: the one there, or a new empty one.
pub open spec fn entered(m: Map<Seq<Seq<char>>, TomlNode>, key: Seq<char>) -> Map<Seq<Seq<char>>, TomlNode> {
    if child(m, key).contains_key(Seq::empty()) {
        child(m, key)
    } else {
        map![Seq::empty() => TomlNode::Empty]
    }
}

/// An item once a key was looked up in it: an empty item has become an inline table.
pub open spec fn opened(m: Map<Seq<Seq<char>>, TomlNode>) -> Map<Seq<Seq<char>>, TomlNode> {
    if root_node(m) == Some(TomlNode::Empty) {
        m.insert(Seq::empty(), TomlNode::InlineTable)
    } else {
        m
    }
}

/// The tree `m` with the subtree under `key` replaced by `sub`.
pub open spec fn graft(
    m: Map<Seq<Seq<char>>, TomlNode>,
    key: Seq<char>,
    sub: Map<Seq<Seq<char>>, TomlNode>,
) -> Map<Seq<Seq<char>>, TomlNode> {
    Map::new(
        |p: Seq<Seq<char>>|
            if p.len() > 0 && p[0] == key {
                sub.contains_key(p.drop_first())
            } else {
                m.contains_key(p)
            },
        |p: Seq<Seq<char>>|
            if p.len() > 0 && p[0] == key {
                sub[p.drop_first()]
            } else {
                m[p]
            },
    )
}

/// Every key of `keys` can be looked up in turn from the root of `m`.
pub open spec fn followable(m: Map<Seq<Seq<char>>, TomlNode>, keys: Seq<Seq<char>>) -> bool
    decreases keys.len(),
{
    if keys.len() == 0 {
        true
    } else {
        can_enter(root_node(m)) && followable(entered(m, keys[0]), keys.drop_first())
    }
}

/// The item reached from the root of `m` by looking up `keys` in turn.
pub open spec fn reached(m: Map<Seq<Seq<char>>, TomlNode>, keys: Seq<Seq<char>>) -> Map<Seq<Seq<char>>, TomlNode>
    decreases keys.len(),
{
    if keys.len() == 0 {
        m
    } else {
        reached(entered(m, keys[0]), keys.drop_first())
    }
}

/// The tree `m` once `keys` were looked up in turn and the item reached became `sub`.
pub open spec fn rebuilt(
    m: Map<Seq<Seq<char>>, TomlNode>,
    keys: Seq<Seq<char>>,
    sub: Map<Seq<Seq<char>>, TomlNode>,
) -> Map<Seq<Seq<char>>, TomlNode>
    decreases keys.len(),
{
    if keys.len() == 0 {
        sub
    } else {
        graft(opened(m), keys[0], rebuilt(entered(m, keys[0]), keys.drop_first(), sub))
    }
}

/// The tree `m` with `value` set at `keys`.
pub open spec fn set_at(m: Map<Seq<Seq<char>>, TomlNode>, keys: Seq<Seq<char>>, value: TomlValue) -> Map<
    Seq<Seq<char>>,
    TomlNode,
> {
    rebuilt(m, keys, map![Seq::empty() => TomlNode::Written(value)])
}

/// The keys of a dotted path.
pub open spec fn path_keys(path: Seq<char>) -> Seq<Seq<char>> {
    split_on(path, '.')
}

/// The tree once the first `k` entries were set in turn, or `None` when the path of
/// one of them cannot be followed.
pub open spec fn entries_applied(m: Map<Seq<Seq<char>>, TomlNode>, entries: Seq<TomlEntry>, k: int) -> Option<
    Map<Seq<Seq<char>>, TomlNode>,
>
    decreases k,
{
    if k <= 0 {
        Some(m)
    } else {
        match entries_applied(m, entries, k - 1) {
            None => None,
            Some(prev) => {
                let keys = path_keys(entries[k - 1].path@);
                if followable(prev, keys) {
                    Some(set_at(prev, keys, entries[k - 1].value))
                } else {
                    None
                }
            },
        }
    }
}

/// The first entry, among the first `k`, whose path cannot be followed once the
/// entries before it were set.
pub open spec fn first_unfollowable(m: Map<Seq<Seq<char>>, TomlNode>, entries: Seq<TomlEntry>, k: int) -> int
    decreases k,
{
    if k <= 0 {
        -1
    } else if entries_applied(m, entries, k - 1) is None {
        first_unfollowable(m, entries, k - 1)
    } else if entries_applied(m, entries, k) is None {
        k - 1
    } else {
        -1
    }
}

/// Parses a TOML document with toml_edit's `DocumentMut::from_str`. Claimed: whether
/// it succeeds, and the items of the document, depend on the text alone; the root of
/// a parsed document is a table, as toml_edit keeps it.
#[verifier::external_body]
fn parse_document(text: &str) -> (r: Result<toml_edit::DocumentMut, toml_edit::TomlError>)
    ensures
        r is Ok <==> toml_parses(text@),
        r matches Ok(d) ==> doc_nodes(d) == parsed_nodes(text@) && root_node(doc_nodes(d)) == Some(
            TomlNode::Table,
        ),
{
    text.parse::<toml_edit::DocumentMut>()
}

/// The message of a toml_edit parse error, as its `Display` writes it.
#[verifier::external_body]
fn parse_error_message(e: &toml_edit::TomlError) -> (r: String) {
    format!("{}", e)
}

/// toml_edit's `DocumentMut::as_item_mut`: the root item of the document, whose
/// items are the document's.
#[verifier::external_body]
fn document_root(doc: &mut toml_edit::DocumentMut) -> (r: &mut toml_edit::Item)
    ensures
        item_nodes(*r) == doc_nodes(*old(doc)),
        doc_nodes(*final(doc)) == item_nodes(*final(r)),
{
    doc.as_item_mut()
}

/// toml_edit's `Item::get_mut` with a key (index.rs, `Index for str`): on a table or
/// an inline table, the entry under `key`, added empty when missing; on an empty item,
/// which first becomes an inline table holding `key`, the same; on any other item,
/// `None`, the item unchanged.
#[verifier::external_body]
fn item_entry<'a>(item: &'a mut toml_edit::Item, key: &str) -> (r: Option<&'a mut toml_edit::Item>)
    ensures
        r is Some <==> can_enter(root_node(item_nodes(*old(item)))),
        r is None ==> item_nodes(*final(item)) == item_nodes(*old(item)),
        r matches Some(e) ==> item_nodes(*e) == entered(item_nodes(*old(item)), key@) && item_nodes(
            *final(item),
        ) == graft(opened(item_nodes(*old(item))), key@, item_nodes(*final(e))),
{
    item.get_mut(key)
}

/// Replaces an item by a value, converted with toml_edit's `From<String>` or
/// `From<bool>` for `Value`: the item becomes that value, with nothing under it.
#[verifier::external_body]
fn set_item(item: &mut toml_edit::Item, value: &TomlValue)
    ensures
        item_nodes(*final(item)) == map![Seq::<Seq<char>>::empty() => TomlNode::Written(*value)],
{
    *item = toml_edit::Item::Value(
        match value {
            TomlValue::Str(s) => toml_edit::Value::from(s.clone()),
            TomlValue::Bool(b) => toml_edit::Value::from(*b),
        },
    );
}

/// The text of a document, as toml_edit's `Display` for `DocumentMut` writes it.
#[verifier::external_body]
fn render_document(doc: &toml_edit::DocumentMut) -> (r: String)
    ensures
        r@ == doc_text(*doc),
{
    doc.to_string()
}

proof fn lemma_walk_step(
    m: Map<Seq<Seq<char>>, TomlNode>,
    keys: Seq<Seq<char>>,
    k: Seq<char>,
    s: Map<Seq<Seq<char>>, TomlNode>,
)
    ensures
        reached(m, keys.push(k)) == entered(reached(m, keys), k),
        followable(m, keys.push(k)) == (followable(m, keys) && can_enter(root_node(reached(m, keys)))),
        rebuilt(m, keys.push(k), s) == rebuilt(m, keys, graft(opened(reached(m, keys)), k, s)),
    decreases keys.len(),
{
    let kk = keys.push(k);
    if keys.len() > 0 {
        let e = entered(m, keys[0]);
        let rest = keys.drop_first();
        lemma_walk_step(e, rest, k, s);
        assert(kk.drop_first() =~= rest.push(k));
        assert(kk[0] == keys[0]);
        assert(reached(m, kk) == reached(e, rest.push(k)));
        assert(reached(m, keys) == reached(e, rest));
        assert(followable(m, kk) == (can_enter(root_node(m)) && followable(e, rest.push(k))));
        assert(rebuilt(m, kk, s) == graft(opened(m), keys[0], rebuilt(e, rest.push(k), s)));
    } else {
        assert(kk.drop_first() =~= Seq::<Seq<char>>::empty());
        assert(kk[0] == k);
        assert(reached(m, kk) == reached(entered(m, k), Seq::<Seq<char>>::empty()));
        assert(followable(m, kk) == (can_enter(root_node(m)) && followable(
            entered(m, k),
            Seq::<Seq<char>>::empty(),
        )));
        assert(rebuilt(m, kk, s) == graft(opened(m), k, rebuilt(entered(m, k), Seq::<Seq<char>>::empty(), s)));
    }
}

proof fn lemma_followable_prefix(m: Map<Seq<Seq<char>>, TomlNode>, keys: Seq<Seq<char>>, j: int)
    requires
        0 <= j <= keys.len(),
        followable(m, keys),
    ensures
        followable(m, keys.take(j)),
    decreases keys.len(),
{
    if j > 0 {
        let rest = keys.drop_first();
        lemma_followable_prefix(entered(m, keys[0]), rest, j - 1);
        assert(keys.take(j).drop_first() =~= rest.take(j - 1));
        assert(keys.take(j)[0] == keys[0]);
    }
}

/// Walks the keys of a path from the root of the document and sets the item reached
/// to `value`; `false` when some key cannot be looked up.
fn set_path(doc: &mut toml_edit::DocumentMut, keys: &Vec<String>, value: &TomlValue) -> (r: bool)
    ensures
        r == followable(doc_nodes(*old(doc)), keys.deep_view()),
        r ==> doc_nodes(*final(doc)) == set_at(doc_nodes(*old(doc)), keys.deep_view(), *value),
{
    let ghost m0 = doc_nodes(*doc);
    let ghost kv = keys.deep_view();
    let root = document_root(doc);
    let ghost goal = item_nodes(*final(root));
    let mut current = root;
    let mut i: usize = 0;
    assert(kv.take(0) =~= Seq::<Seq<char>>::empty());
    while i < keys.len()
        invariant
            i <= keys@.len(),
            kv == keys.deep_view(),
            m0 == doc_nodes(*old(doc)),
            followable(m0, kv.take(i as int)),
            item_nodes(*current) == reached(m0, kv.take(i as int)),
            goal == rebuilt(m0, kv.take(i as int), item_nodes(*final(current))),
        decreases keys@.len() - i,
    {
        proof {
            lemma_walk_step(m0, kv.take(i as int), kv[i as int], item_nodes(*final(current)));
            assert(kv.take(i + 1) =~= kv.take(i as int).push(kv[i as int]));
            assert(kv[i as int] == keys@[i as int]@);
        }
        match item_entry(current, keys[i].as_str()) {
            Some(next) => {
                proof {
                    lemma_walk_step(m0, kv.take(i as int), kv[i as int], item_nodes(*final(next)));
                }
                current = next;
            },
            None => {
                proof {
                    if followable(m0, kv) {
                        lemma_followable_prefix(m0, kv, i + 1);
                    }
                }
                return false;
            },
        }
        i = i + 1;
    }
    assert(kv.take(kv.len() as int) =~= kv);
    set_item(current, value);
    true
}

/// Sets, in the TOML text `contents`, each entry's dotted path to its value, in order,
/// and gives back the document's text. The keys of a path are its parts between dots.
/// It fails when the text does not parse, or at the first entry whose path cannot be
/// followed once the entries before it were set.
pub fn insert_toml_values(contents: &str, entries: &Vec<TomlEntry>) -> (r: Result<
    String,
    ManifestError,
>)
    ensures
        r matches Err(ManifestError::Parse(_)) <==> !toml_parses(contents@),
        toml_parses(contents@) ==> match entries_applied(
            parsed_nodes(contents@),
            entries@,
            entries@.len() as int,
        ) {
            Some(m) => r matches Ok(s) && exists|d: toml_edit::DocumentMut|
                doc_nodes(d) == m && s@ == doc_text(d),
            None => r matches Err(ManifestError::PathNotFound(p)) && p@ == entries@[first_unfollowable(
                parsed_nodes(contents@),
                entries@,
                entries@.len() as int,
            )].path@,
        },
{
    let mut doc = match parse_document(contents) {
        Ok(d) => d,
        Err(e) => {
            return Err(ManifestError::Parse(parse_error_message(&e)));
        },
    };
    let ghost m0 = parsed_nodes(contents@);
    let mut i: usize = 0;
    while i < entries.len()
        invariant
            i <= entries@.len(),
            toml_parses(contents@),
            m0 == parsed_nodes(contents@),
            entries_applied(m0, entries@, i as int) == Some(doc_nodes(doc)),
        decreases entries@.len() - i,
    {
        let entry = &entries[i];
        let keys = split_text_on(entry.path.as_str(), '.');
        if !set_path(&mut doc, &keys, &entry.value) {
            proof {
                lemma_first_unfollowable(m0, entries@, i as int, entries@.len() as int);
            }
            return Err(ManifestError::PathNotFound(entry.path.clone()));
        }
        i = i + 1;
    }
    Ok(render_document(&doc))
}

proof fn lemma_first_unfollowable(m: Map<Seq<Seq<char>>, TomlNode>, entries: Seq<TomlEntry>, i: int, n: int)
    requires
        0 <= i < n <= entries.len(),
        entries_applied(m, entries, i) is Some,
        entries_applied(m, entries, i + 1) is None,
    ensures
        entries_applied(m, entries, n) is None,
        first_unfollowable(m, entries, n) == i,
    decreases n - i,
{
    if n > i + 1 {
        lemma_first_unfollowable(m, entries, i, n - 1);
    }
}


proof fn lemma_rebuilt_has_root(m: Map<Seq<Seq<char>>, TomlNode>, keys: Seq<Seq<char>>, sub: Map<Seq<Seq<char>>, TomlNode>)
    requires
        m.contains_key(Seq::empty()),
        sub.contains_key(Seq::empty()),
    ensures
        rebuilt(m, keys, sub).contains_key(Seq::empty()),
    decreases keys.len(),
{
    if keys.len() > 0 {
        let e = entered(m, keys[0]);
        lemma_rebuilt_has_root(e, keys.drop_first(), sub);
        assert(opened(m).contains_key(Seq::empty()));
    }
}

proof fn lemma_reached_rebuilt(m: Map<Seq<Seq<char>>, TomlNode>, keys: Seq<Seq<char>>, sub: Map<Seq<Seq<char>>, TomlNode>)
    requires
        sub.contains_key(Seq::empty()),
    ensures
        reached(rebuilt(m, keys, sub), keys) == sub,
    decreases keys.len(),
{
    if keys.len() > 0 {
        let k = keys[0];
        let rest = keys.drop_first();
        let e = entered(m, k);
        let s = rebuilt(e, rest, sub);
        let g = graft(opened(m), k, s);
        assert(e.contains_key(Seq::empty())) by {
            if !child(m, k).contains_key(Seq::empty()) {
                assert(e == map![Seq::<Seq<char>>::empty() => TomlNode::Empty]);
            }
        }
        lemma_rebuilt_has_root(e, rest, sub);
        assert forall|p: Seq<Seq<char>>| #![auto] child(g, k).contains_key(p) == s.contains_key(p) by {
            assert((seq![k] + p).drop_first() =~= p);
            assert((seq![k] + p)[0] == k);
        }
        assert forall|p: Seq<Seq<char>>| #![auto] child(g, k).contains_key(p) implies child(g, k)[p] == s[p] by {
            assert((seq![k] + p).drop_first() =~= p);
            assert((seq![k] + p)[0] == k);
        }
        assert(child(g, k) =~= s);
        assert(entered(g, k) == s);
        lemma_reached_rebuilt(e, rest, sub);
    }
}

/// A value set at a path is found there: looking up the keys of the path in turn,
/// from the root of the tree where the value was set, reaches that value alone.
pub proof fn law_value_set_is_found(m: Map<Seq<Seq<char>>, TomlNode>, keys: Seq<Seq<char>>, value: TomlValue)
    ensures
        reached(set_at(m, keys, value), keys) == map![Seq::<Seq<char>>::empty() => TomlNode::Written(value)],
{
    lemma_reached_rebuilt(m, keys, map![Seq::<Seq<char>>::empty() => TomlNode::Written(value)]);
}

/// Setting a value leaves the rest of the tree alone: every item under another key
/// of the root than the path's first one is kept as it was.
pub proof fn law_other_items_kept(m: Map<Seq<Seq<char>>, TomlNode>, keys: Seq<Seq<char>>, value: TomlValue)
    requires
        keys.len() > 0,
    ensures
        forall|p: Seq<Seq<char>>|
            p.len() > 0 && p[0] != keys[0] ==> (#[trigger] set_at(m, keys, value).contains_key(p)
                == m.contains_key(p) && (m.contains_key(p) ==> set_at(m, keys, value)[p] == m[p])),
{
    let sub = map![Seq::<Seq<char>>::empty() => TomlNode::Written(value)];
    assert(set_at(m, keys, value) == graft(opened(m), keys[0], rebuilt(entered(m, keys[0]), keys.drop_first(), sub)));
    assert forall|p: Seq<Seq<char>>| p.len() > 0 && p[0] != keys[0] implies (#[trigger] set_at(
        m,
        keys,
        value,
    ).contains_key(p) == m.contains_key(p) && (m.contains_key(p) ==> set_at(m, keys, value)[p] == m[p])) by {
        assert(p != Seq::<Seq<char>>::empty());
    }
}

} // verus!
