use vstd::prelude::*;

verus! {

/// Button access shared by the key events of both devices.
pub trait ButtonState {
    /// The state of every button, in index order; its length is the number
    /// of buttons.
    spec fn button_states(&self) -> Seq<bool>;

    /// Whether button `index` is pressed; `false` for an index past the last
    /// button.
    fn pressed(&self, index: usize) -> (r: bool)
        ensures
            r == (index < self.button_states().len() && self.button_states()[index as int]),
    ;

    /// The number of buttons.
    fn count(&self) -> (n: usize)
        ensures
            n == self.button_states().len(),
    ;

    /// Whether at least one button is pressed.
    fn any_pressed(&self) -> (r: bool)
        ensures
            r == exists|i: int| 0 <= i < self.button_states().len() && #[trigger] self.button_states()[i],
    {
        let n = self.count();
        let mut i: usize = 0;
        while i < n
            invariant
                i <= n,
                n == self.button_states().len(),
                forall|j: int| 0 <= j < i ==> !#[trigger] self.button_states()[j],
            decreases n - i,
        {
            if self.pressed(i) {
                return true;
            }
            i = i + 1;
        }
        false
    }
}

} // verus!
