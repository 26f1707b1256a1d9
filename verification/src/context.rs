//! Interned names.
use vstd::prelude::*;

verus! {

/// A handle for an interned name. It is meaningful only together with the
/// [`Context`] that issued it.
#[derive(Clone, Copy, Debug, PartialEq, Eq, Structural)]
pub struct Identifier {
    pub index: usize,
}

/// The table of the names that a program uses. Every name is stored once, and
/// an [`Identifier`] is its position in the table.
pub struct Context {
    names: Vec<String>,
}

impl View for Context {
    type V = Seq<Seq<char>>;

    closed spec fn view(&self) -> Seq<Seq<char>> {
        self.names@.map_values(|name: String| name@)
    }
}

impl Context {
    /// No name occurs twice in the table.
    pub open spec fn wf(&self) -> bool {
        self@.no_duplicates()
    }

    /// `id` was issued by this context.
    pub open spec fn knows(&self, id: Identifier) -> bool {
        id.index < self@.len()
    }

    /// The text that `id` stands for.
    pub open spec fn text(&self, id: Identifier) -> Seq<char>
        recommends
            self.knows(id),
    {
        self@[id.index as int]
    }

    /// A table without names.
    pub fn new() -> (ctx: Context)
        ensures
            ctx@ == Seq::<Seq<char>>::empty(),
            ctx.wf(),
    {
        let ctx = Context { names: Vec::new() };
        assert(ctx@ =~= Seq::<Seq<char>>::empty());
        ctx
    }

    /// The number of names interned so far.
    pub fn len(&self) -> (n: usize)
        ensures
            n == self@.len(),
    {
        self.names.len()
    }

    /// The handle of `name`, if it was interned: the first position in the
    /// table that holds it.
    pub fn get_identifier(&self, name: &str) -> (found: Option<Identifier>)
        ensures
            match found {
                Some(id) => {
                    &&& self.knows(id)
                    &&& self.text(id) == name@
                    &&& forall|j: int| 0 <= j < id.index ==> self@[j] != name@
                },
                None => !self@.contains(name@),
            },
    {
        let wanted = name.to_owned();
        let mut i: usize = 0;
        while i < self.names.len()
            invariant
                i <= self.names.len(),
                wanted@ == name@,
                forall|j: int| 0 <= j < i ==> self@[j] != name@,
            decreases self.names.len() - i,
        {
            if self.names[i] == wanted {
                return Some(Identifier { index: i });
            }
            i = i + 1;
        }
        None
    }

    /// Interns `name`: returns the handle it already has, or appends it to the
    /// table and returns the new handle. Handles issued earlier keep their
    /// meaning.
    pub fn add_identifier(&mut self, name: &str) -> (id: Identifier)
        requires
            old(self).wf(),
        ensures
            final(self).wf(),
            final(self).knows(id),
            final(self).text(id) == name@,
            old(self)@.contains(name@) ==> final(self)@ == old(self)@,
            !old(self)@.contains(name@) ==> final(self)@ == old(self)@.push(name@),
    {
        match self.get_identifier(name) {
            Some(id) => id,
            None => {
                let index = self.names.len();
                self.names.push(name.to_owned());
                assert(self@ =~= old(self)@.push(name@));
                assert forall|i: int, j: int|
                    0 <= i < self@.len() && 0 <= j < self@.len() && i != j implies self@[i]
                    != self@[j] by {
                    if i < index && j < index {
                        assert(old(self)@[i] != old(self)@[j]);
                    } else if i < index {
                        assert(old(self)@.contains(old(self)@[i]));
                    } else {
                        assert(old(self)@.contains(old(self)@[j]));
                    }
                }
                Identifier { index }
            },
        }
    }

    /// The text of an interned name.
    pub fn resolve(&self, id: Identifier) -> (name: &str)
        requires
            self.knows(id),
        ensures
            name@ == self.text(id),
    {
        self.names[id.index].as_str()
    }
}

} // verus!
