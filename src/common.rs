use vstd::prelude::*;

verus! {

/// A value written either alone or as a list.
pub enum Many<T> {
    /// Single value
    One(T),
    /// Array of values
    Vec(Vec<T>),
}

impl<T> Many<T> {
    /// The values as a list: a single value becomes a list of one.
    pub fn into_vec(self) -> (r: Vec<T>)
        ensures
            r@ == match self {
                Many::One(v) => seq![v],
                Many::Vec(vs) => vs@,
            },
    {
        match self {
            Many::One(val) => {
                let mut v: Vec<T> = Vec::new();
                v.push(val);
                assert(v@ =~= seq![val]);
                v
            },
            Many::Vec(vec) => vec,
        }
    }
}

} // verus!
