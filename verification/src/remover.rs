//! Removes helper attributes, by name, from the items that a derive hands back.
use crate::text::same_str;
use vstd::prelude::*;

verus! {

/// An attribute: the segments of its path, and the text of its arguments.
pub struct Attribute {
    pub path: Vec<String>,
    pub tokens: String,
}

/// The single identifier that an attribute's path is, if it is one.
pub open spec fn attribute_ident(a: Attribute) -> Option<Seq<char>> {
    if a.path@.len() == 1 {
        Some(a.path@[0]@)
    } else {
        None
    }
}

/// Whether an attribute is one of those named in `names`.
pub open spec fn is_removed(names: Seq<&str>, a: Attribute) -> bool {
    match attribute_ident(a) {
        Some(id) => exists|k: int| 0 <= k < names.len() && (#[trigger] names[k])@ == id,
        None => false,
    }
}

/// The attributes of `attrs` that are not named in `names`, in their order.
pub open spec fn kept_attributes(names: Seq<&str>, attrs: Seq<Attribute>) -> Seq<Attribute>
    decreases attrs.len(),
{
    if attrs.len() == 0 {
        Seq::empty()
    } else {
        let rest = kept_attributes(names, attrs.drop_last());
        if is_removed(names, attrs.last()) {
            rest
        } else {
            rest.push(attrs.last())
        }
    }
}

/// Removes the attributes with the given names.
pub struct AttributeRemover(pub Vec<&'static str>);

impl AttributeRemover {
    /// A remover that removes nothing yet.
    pub fn new() -> (r: Self)
        ensures
            r.0@.len() == 0,
    {
        AttributeRemover(Vec::new())
    }

    /// The same remover, removing `attr` too.
    pub fn with_attribute(self, attr: &'static str) -> (r: Self)
        ensures
            r.0@ == self.0@.push(attr),
    {
        let mut names = self.0;
        names.push(attr);
        AttributeRemover(names)
    }

    fn names_contain(&self, ident: &str) -> (r: bool)
        ensures
            r == exists|k: int| 0 <= k < self.0@.len() && (#[trigger] self.0@[k])@ == ident@,
    {
        let mut k: usize = 0;
        while k < self.0.len()
            invariant
                k <= self.0@.len(),
                forall|j: int| 0 <= j < k ==> (#[trigger] self.0@[j])@ != ident@,
            decreases self.0@.len() - k,
        {
            if same_str(self.0[k], ident) {
                return true;
            }
            k = k + 1;
        }
        false
    }

    /// The attributes of `attrs` that this remover does not name.
    pub fn fold_attributes(&mut self, attrs: Vec<Attribute>) -> (r: Vec<Attribute>)
        ensures
            r@ == kept_attributes(old(self).0@, attrs@),
            *final(self) == *old(self),
    {
        let mut rest = attrs;
        let ghost all = rest@;
        let mut out_rev: Vec<Attribute> = Vec::new();
        // Take the attributes from the back; the kept ones come out reversed.
        while rest.len() > 0
            invariant
                rest@ == all.take(rest@.len() as int),
                rest@.len() <= all.len(),
                kept_attributes(self.0@, all) == kept_attributes(self.0@, rest@) + out_rev@.reverse(),
            decreases rest@.len(),
        {
            let ghost before = rest@;
            let a = rest.pop().unwrap();
            assert(before.drop_last() =~= rest@);
            let removed = if a.path.len() == 1 {
                self.names_contain(a.path[0].as_str())
            } else {
                false
            };
            proof {
                assert(rest@ =~= all.take(rest@.len() as int));
            }
            if !removed {
                let ghost prev = out_rev@;
                out_rev.push(a);
                assert(out_rev@.reverse() =~= seq![before.last()] + prev.reverse());
            }
        }
        assert(rest@ =~= Seq::<Attribute>::empty());
        let ghost reversed = out_rev@;
        let mut kept: Vec<Attribute> = Vec::new();
        while out_rev.len() > 0
            invariant
                out_rev@ == reversed.take(out_rev@.len() as int),
                out_rev@.len() <= reversed.len(),
                kept@ == reversed.reverse().take(reversed.len() - out_rev@.len()),
            decreases out_rev@.len(),
        {
            let ghost before = out_rev@;
            let a = out_rev.pop().unwrap();
            kept.push(a);
            assert(out_rev@ =~= reversed.take(out_rev@.len() as int));
            assert(kept@ =~= reversed.reverse().take(reversed.len() - out_rev@.len()));
        }
        assert(kept@ =~= reversed.reverse());
        kept
    }
}

/// Removing attributes twice removes no more than removing them once.
pub proof fn law_fold_attributes_idempotent(names: Seq<&str>, attrs: Seq<Attribute>)
    ensures
        kept_attributes(names, kept_attributes(names, attrs)) == kept_attributes(names, attrs),
    decreases attrs.len(),
{
    if attrs.len() > 0 {
        let rest = kept_attributes(names, attrs.drop_last());
        law_fold_attributes_idempotent(names, attrs.drop_last());
        if !is_removed(names, attrs.last()) {
            let kept = rest.push(attrs.last());
            assert(kept.drop_last() =~= rest);
        }
    }
}

/// No attribute that the remover names is kept, and every kept attribute comes from
/// the input.
pub proof fn law_fold_attributes_removes_named(names: Seq<&str>, attrs: Seq<Attribute>)
    ensures
        forall|i: int|
            0 <= i < kept_attributes(names, attrs).len() ==> !is_removed(
                names,
                #[trigger] kept_attributes(names, attrs)[i],
            ) && attrs.contains(kept_attributes(names, attrs)[i]),
    decreases attrs.len(),
{
    if attrs.len() > 0 {
        law_fold_attributes_removes_named(names, attrs.drop_last());
        let rest = kept_attributes(names, attrs.drop_last());
        assert forall|i: int| 0 <= i < rest.len() implies attrs.contains(#[trigger] rest[i]) by {
            let j = choose|j: int| 0 <= j < attrs.drop_last().len() && attrs.drop_last()[j] == rest[i];
            assert(attrs[j] == rest[i]);
        }
        assert(attrs[attrs.len() - 1] == attrs.last());
    }
}

} // verus!
