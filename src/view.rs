//! Values with a ground-truth form and a public form.

use vstd::prelude::*;

verus! {

/// A value that its owner sees whole and everybody else sees redacted.
///
/// Equality and rendering exist for each of the two forms; the public ones
/// look only at what the redacted form keeps.
pub trait VisibilityView: Sized {
    /// The value is in a usable state.
    spec fn viewable(&self) -> bool;

    /// The two values agree in ground truth.
    spec fn same_private(&self, other: &Self) -> bool;

    /// The two values agree in their public forms.
    spec fn same_public(&self, other: &Self) -> bool;

    /// The text that shows the ground truth.
    spec fn private_text(&self) -> Seq<char>;

    /// The text that shows the public form.
    spec fn public_text(&self) -> Seq<char>;

    /// Whether two values are equal in ground truth.
    fn eq_priv(&self, other: &Self) -> (r: bool)
        requires
            self.viewable(),
            other.viewable(),
        ensures
            r == self.same_private(other),
    ;

    /// Whether two values have the same public form.
    fn eq_pub(&self, other: &Self) -> (r: bool)
        requires
            self.viewable(),
            other.viewable(),
        ensures
            r == self.same_public(other),
    ;

    /// Show the ground truth.
    fn disp_priv(&self) -> (r: String)
        requires
            self.viewable(),
        ensures
            r@ == self.private_text(),
    ;

    /// Show the public form.
    fn disp_pub(&self) -> (r: String)
        requires
            self.viewable(),
        ensures
            r@ == self.public_text(),
    ;
}

} // verus!
