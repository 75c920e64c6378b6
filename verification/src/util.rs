//! Small verified helpers on strings and string vectors.

use vstd::prelude::*;
use vstd::string::*;

verus! {

/// The deep view of a vector is the pointwise deep view of its elements.
pub proof fn lemma_deep_pointwise<T: DeepView>(v: Vec<T>)
    ensures
        v.deep_view().len() == v@.len(),
        forall|i: int| 0 <= i < v@.len() ==> #[trigger] v.deep_view()[i] == v@[i].deep_view(),
{
}

/// Pushing an element appends its deep view to the vector's deep view.
pub proof fn lemma_deep_push<T: DeepView>(pre: Vec<T>, post: Vec<T>, x: T)
    requires
        post@ == pre@.push(x),
    ensures
        post.deep_view() =~= pre.deep_view().push(x.deep_view()),
{
    lemma_deep_pointwise(pre);
    lemma_deep_pointwise(post);
    assert forall|j: int| 0 <= j < post@.len() implies post.deep_view()[j] == pre.deep_view().push(
        x.deep_view(),
    )[j] by {
        assert(post.deep_view()[j] == post@[j].deep_view());
        if j < pre@.len() {
            assert(post@[j] == pre@[j]);
            assert(pre.deep_view()[j] == pre@[j].deep_view());
        } else {
            assert(post@[j] == x);
        }
    }
}

/// Inserting an element at the front prepends its deep view.
pub proof fn lemma_deep_insert0<T: DeepView>(pre: Vec<T>, post: Vec<T>, x: T)
    requires
        post@ == pre@.insert(0, x),
    ensures
        post.deep_view() =~= seq![x.deep_view()] + pre.deep_view(),
{
    lemma_deep_pointwise(pre);
    lemma_deep_pointwise(post);
    assert forall|j: int| 0 <= j < post@.len() implies post.deep_view()[j] == (seq![x.deep_view()]
        + pre.deep_view())[j] by {
        assert(post.deep_view()[j] == post@[j].deep_view());
        if j == 0 {
            assert(post@[0] == x);
        } else {
            assert(post@[j] == pre@[j - 1]);
            assert(pre.deep_view()[j - 1] == pre@[j - 1].deep_view());
        }
    }
}

/// Removing the front element drops the front of the deep view.
pub proof fn lemma_deep_remove0<T: DeepView>(pre: Vec<T>, post: Vec<T>)
    requires
        pre@.len() > 0,
        post@ == pre@.remove(0),
    ensures
        post.deep_view() =~= pre.deep_view().skip(1),
{
    lemma_deep_pointwise(pre);
    lemma_deep_pointwise(post);
    assert forall|j: int| 0 <= j < post@.len() implies post.deep_view()[j]
        == pre.deep_view().skip(1)[j] by {
        assert(post.deep_view()[j] == post@[j].deep_view());
        assert(post@[j] == pre@[j + 1]);
        assert(pre.deep_view()[j + 1] == pre@[j + 1].deep_view());
    }
}

/// Inserting an element anywhere inserts its deep view there.
pub proof fn lemma_deep_insert<T: DeepView>(pre: Vec<T>, post: Vec<T>, i: int, x: T)
    requires
        0 <= i <= pre@.len(),
        post@ == pre@.insert(i, x),
    ensures
        post.deep_view() =~= pre.deep_view().insert(i, x.deep_view()),
{
    lemma_deep_pointwise(pre);
    lemma_deep_pointwise(post);
    assert forall|j: int| 0 <= j < post@.len() implies post.deep_view()[j]
        == pre.deep_view().insert(i, x.deep_view())[j] by {
        assert(post.deep_view()[j] == post@[j].deep_view());
        if j < i {
            assert(post@[j] == pre@[j]);
            assert(pre.deep_view()[j] == pre@[j].deep_view());
        } else if j == i {
            assert(post@[j] == x);
        } else {
            assert(post@[j] == pre@[j - 1]);
            assert(pre.deep_view()[j - 1] == pre@[j - 1].deep_view());
        }
    }
}

/// Removing an element anywhere removes its deep view there.
pub proof fn lemma_deep_remove<T: DeepView>(pre: Vec<T>, post: Vec<T>, i: int)
    requires
        0 <= i < pre@.len(),
        post@ == pre@.remove(i),
    ensures
        post.deep_view() =~= pre.deep_view().remove(i),
{
    lemma_deep_pointwise(pre);
    lemma_deep_pointwise(post);
    assert forall|j: int| 0 <= j < post@.len() implies post.deep_view()[j]
        == pre.deep_view().remove(i)[j] by {
        assert(post.deep_view()[j] == post@[j].deep_view());
        if j < i {
            assert(post@[j] == pre@[j]);
            assert(pre.deep_view()[j] == pre@[j].deep_view());
        } else {
            assert(post@[j] == pre@[j + 1]);
            assert(pre.deep_view()[j + 1] == pre@[j + 1].deep_view());
        }
    }
}

/// Updating one place updates that place of the deep view.
pub proof fn lemma_deep_update<T: DeepView>(pre: Vec<T>, post: Vec<T>, i: int, x: T)
    requires
        0 <= i < pre@.len(),
        post@ == pre@.update(i, x),
    ensures
        post.deep_view() =~= pre.deep_view().update(i, x.deep_view()),
{
    lemma_deep_pointwise(pre);
    lemma_deep_pointwise(post);
    assert forall|j: int| 0 <= j < post@.len() implies post.deep_view()[j]
        == pre.deep_view().update(i, x.deep_view())[j] by {
        assert(post.deep_view()[j] == post@[j].deep_view());
        if j == i {
            assert(post@[j] == x);
        } else {
            assert(post@[j] == pre@[j]);
            assert(pre.deep_view()[j] == pre@[j].deep_view());
        }
    }
}

/// Character-for-character equality of two string slices.
pub fn eq_str(a: &str, b: &str) -> (r: bool)
    ensures
        r == (a@ == b@),
{
    let na = a.unicode_len();
    let nb = b.unicode_len();
    if na != nb {
        assert(a@ != b@);
        return false;
    }
    let mut i: usize = 0;
    while i < na
        invariant
            na == a@.len(),
            na == b@.len(),
            i <= na,
            forall|k: int| 0 <= k < i ==> a@[k] == b@[k],
        decreases na - i,
    {
        if a.get_char(i) != b.get_char(i) {
            assert(a@ != b@);
            return false;
        }
        i += 1;
    }
    assert(a@ =~= b@);
    true
}

/// Appends a copy of every string of `more` to `out`, in order.
pub fn append_strings(out: &mut Vec<String>, more: &Vec<String>)
    ensures
        final(out).deep_view() == old(out).deep_view() + more.deep_view(),
{
    let ghost basev: Seq<String> = out@;
    let mut i: usize = 0;
    while i < more.len()
        invariant
            i <= more.len(),
            out@ =~= basev + more@.take(i as int),
        decreases more.len() - i,
    {
        out.push(more[i].clone());
        i += 1;
        assert(out@ =~= basev + more@.take(i as int));
    }
    proof {
        assert(more@.take(more.len() as int) =~= more@);
        lemma_deep_pointwise(*out);
        lemma_deep_pointwise(*old(out));
        lemma_deep_pointwise(*more);
        assert(out.deep_view() =~= old(out).deep_view() + more.deep_view());
    }
}

/// A copy of a vector of strings, character for character.
pub fn clone_strings(v: &Vec<String>) -> (r: Vec<String>)
    ensures
        r.deep_view() == v.deep_view(),
{
    let mut out: Vec<String> = Vec::new();
    let mut i: usize = 0;
    while i < v.len()
        invariant
            i <= v.len(),
            out@ =~= v@.take(i as int),
        decreases v.len() - i,
    {
        out.push(v[i].clone());
        i += 1;
        assert(out@ =~= v@.take(i as int));
    }
    proof {
        assert(v@.take(v.len() as int) =~= v@);
        lemma_deep_pointwise(out);
        lemma_deep_pointwise(*v);
        assert(out.deep_view() =~= v.deep_view());
    }
    out
}

} // verus!
