use vstd::prelude::*;

verus! {

/// Number of escape-time levels, one per byte value.
pub const LEVELS: usize = 256;

/// A fixed table of 256 colours, indexed by escape-time byte.
pub struct Palette<T> {
    colors: Vec<T>,
}

impl<T> Palette<T> {
    /// The colours, in level order.
    pub closed spec fn colors(&self) -> Seq<T> {
        self.colors@
    }

    pub open spec fn wf(&self) -> bool {
        self.colors().len() == LEVELS
    }

    /// Builds the table with `color(level)` for each level `0 ..= 255`.
    pub fn build<F: Fn(u8) -> T>(color: &F) -> (r: Palette<T>)
        requires
            forall|level: u8| color.requires((level,)),
        ensures
            r.wf(),
            forall|i: int| 0 <= i < LEVELS ==> color.ensures((i as u8,), #[trigger] r.colors()[i]),
    {
        let mut colors: Vec<T> = Vec::new();
        let mut i: usize = 0;
        while i < LEVELS
            invariant
                i <= LEVELS,
                colors@.len() == i,
                forall|level: u8| color.requires((level,)),
                forall|j: int| 0 <= j < i ==> color.ensures((j as u8,), #[trigger] colors@[j]),
            decreases LEVELS - i,
        {
            let c = color(i as u8);
            colors.push(c);
            i = i + 1;
        }
        Palette { colors }
    }

    /// The colour of an escape-time level.
    pub fn lookup(&self, level: u8) -> (r: &T)
        requires
            self.wf(),
        ensures
            *r == self.colors()[level as int],
    {
        &self.colors[level as usize]
    }
}

} // verus!
