//! The programs that the kernel can load, by name.

use crate::search::{first_index, is_first_index, lemma_first_index_unique};
use vstd::prelude::*;

verus! {

/// A program as a value: its name and its image.
pub struct ProgramView {
    pub name: Seq<u8>,
    pub image: Seq<u8>,
}

/// Place of the first program called `name` among `programs`; their number
/// where there is none.
pub open spec fn program_index(programs: Seq<ProgramView>, name: Seq<u8>) -> int {
    first_index(programs, |p: ProgramView| p.name == name)
}

/// A program: its name and its image.
pub struct Program {
    name: Vec<u8>,
    image: Vec<u8>,
}

impl View for Program {
    type V = ProgramView;

    closed spec fn view(&self) -> ProgramView {
        ProgramView { name: self.name@, image: self.image@ }
    }
}

/// Whether two byte strings are the same.
pub fn bytes_eq(a: &Vec<u8>, b: &Vec<u8>) -> (same: bool)
    ensures
        same == (a@ == b@),
{
    if a.len() != b.len() {
        return false;
    }
    let n = a.len();
    let mut i: usize = 0;
    while i < n
        invariant
            n == a@.len(),
            n == b@.len(),
            0 <= i <= n,
            forall|j: int| 0 <= j < i ==> a@[j] == b@[j],
        decreases n - i,
    {
        if a[i] != b[i] {
            return false;
        }
        i = i + 1;
    }
    assert(a@ =~= b@);
    true
}

/// The programs that the kernel can load, in the order in which they were
/// made known to it.
pub struct Loader {
    programs: Vec<Program>,
}

impl View for Loader {
    type V = Seq<ProgramView>;

    closed spec fn view(&self) -> Seq<ProgramView> {
        self.programs@.map_values(|p: Program| p@)
    }
}

impl Loader {
    /// Creates a loader that knows no program.
    pub fn new() -> (loader: Self)
        ensures
            loader@ == Seq::<ProgramView>::empty(),
    {
        let loader = Loader { programs: Vec::new() };
        assert(loader@ =~= Seq::empty());
        loader
    }

    /// Makes a program known under a name. An earlier program of the same
    /// name stays the one that is found.
    pub fn add(&mut self, name: Vec<u8>, image: Vec<u8>)
        ensures
            final(self)@ == old(self)@.push(ProgramView { name: name@, image: image@ }),
    {
        self.programs.push(Program { name, image });
        assert(self@ =~= old(self)@.push(ProgramView { name: name@, image: image@ }));
    }

    /// Number of programs.
    pub fn len(&self) -> (n: usize)
        ensures
            n == self@.len(),
    {
        self.programs.len()
    }

    /// The image of the first program called `name`.
    pub fn get_app_data_by_name(&self, name: &Vec<u8>) -> (image: Option<&Vec<u8>>)
        ensures
            image is Some <==> program_index(self@, name@) < self@.len(),
            image is Some ==> image->0@ == self@[program_index(self@, name@)].image,
    {
        let n = self.programs.len();
        let mut i: usize = 0;
        while i < n
            invariant
                n == self.programs@.len(),
                0 <= i <= n,
                forall|j: int| 0 <= j < i ==> (#[trigger] self@[j]).name != name@,
            decreases n - i,
        {
            if bytes_eq(&self.programs[i].name, name) {
                proof {
                    let p = |p: ProgramView| p.name == name@;
                    assert(is_first_index(self@, p, i as int));
                    lemma_first_index_unique(self@, p, i as int);
                }
                return Some(&self.programs[i].image);
            }
            i = i + 1;
        }
        proof {
            let p = |p: ProgramView| p.name == name@;
            assert(is_first_index(self@, p, n as int));
            lemma_first_index_unique(self@, p, n as int);
        }
        None
    }
}

} // verus!
