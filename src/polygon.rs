use vstd::prelude::*;

verus! {

/// One face of a mesh: three vertices in a fixed order.
#[derive(Clone, Copy, Debug)]
pub struct Polygon<V> {
    vertices: [V; 3],
}

impl<V: Copy> View for Polygon<V> {
    type V = (V, V, V);

    closed spec fn view(&self) -> (V, V, V) {
        (self.vertices@[0], self.vertices@[1], self.vertices@[2])
    }
}

impl<V: Copy> Polygon<V> {
    /// Stores the three vertices as given, in that order.
    pub fn new(v1: V, v2: V, v3: V) -> (r: Polygon<V>)
        ensures
            r@ == (v1, v2, v3),
    {
        Polygon { vertices: [v1, v2, v3] }
    }

    /// The three vertices, in the order they were given.
    pub fn vertices(&self) -> (r: Vec<V>)
        ensures
            r@ == seq![self@.0, self@.1, self@.2],
    {
        let mut r: Vec<V> = Vec::new();
        r.push(self.vertices[0]);
        r.push(self.vertices[1]);
        r.push(self.vertices[2]);
        r
    }
}

} // verus!
