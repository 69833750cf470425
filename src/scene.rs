use vstd::prelude::*;
use crate::polygon::Polygon;

verus! {

/// An ordered collection of triangles, appended to and read in insertion order.
pub struct Scene<V> {
    polygons: Vec<Polygon<V>>,
}

impl<V: Copy> View for Scene<V> {
    type V = Seq<(V, V, V)>;

    closed spec fn view(&self) -> Seq<(V, V, V)> {
        self.polygons@.map_values(|p: Polygon<V>| p@)
    }
}

impl<V: Copy> Scene<V> {
    /// An empty scene.
    pub fn new() -> (r: Scene<V>)
        ensures
            r@ == Seq::<(V, V, V)>::empty(),
    {
        let r = Scene { polygons: Vec::new() };
        assert(r@ =~= Seq::<(V, V, V)>::empty());
        r
    }

    /// Appends one triangle after those already held.
    pub fn add_polygon(&mut self, polygon: Polygon<V>)
        ensures
            final(self)@ == old(self)@.push(polygon@),
    {
        self.polygons.push(polygon);
        assert(self@ =~= old(self)@.push(polygon@));
    }

    /// The triangles held, in insertion order.
    pub fn polygons(&self) -> (r: Vec<Polygon<V>>)
        ensures
            r@.map_values(|p: Polygon<V>| p@) == self@,
    {
        let mut r: Vec<Polygon<V>> = Vec::new();
        let mut i: usize = 0;
        while i < self.polygons.len()
            invariant
                i <= self.polygons@.len(),
                r@ == self.polygons@.subrange(0, i as int),
            decreases self.polygons@.len() - i,
        {
            r.push(self.polygons[i]);
            i = i + 1;
            assert(r@ =~= self.polygons@.subrange(0, i as int));
        }
        assert(r@ =~= self.polygons@);
        r
    }
}

} // verus!
