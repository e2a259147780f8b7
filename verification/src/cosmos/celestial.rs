use vstd::prelude::*;

verus! {

/// The index of a body in the cosmos, by which its data is fetched.
#[derive(Debug, Default, Clone, Copy, PartialEq, Eq, Structural)]
pub struct BodyIndex(usize);

impl BodyIndex {
    pub fn new(index: usize) -> (r: Self)
        ensures
            r@ == index,
    {
        BodyIndex(index)
    }

    pub fn get(&self) -> (r: usize)
        ensures
            r == self@,
    {
        self.0
    }
}

impl View for BodyIndex {
    type V = usize;

    closed spec fn view(&self) -> usize {
        self.0
    }
}

/// The index of an orbit in the cosmos, by which its data is fetched.
#[derive(Debug, Default, Clone, Copy, PartialEq, Eq, Structural)]
pub struct OrbitIndex(usize);

impl OrbitIndex {
    pub fn new(index: usize) -> (r: Self)
        ensures
            r@ == index,
    {
        OrbitIndex(index)
    }

    pub fn get(&self) -> (r: usize)
        ensures
            r == self@,
    {
        self.0
    }
}

impl View for OrbitIndex {
    type V = usize;

    closed spec fn view(&self) -> usize {
        self.0
    }
}

/// Marks a star.
#[derive(Debug, Default)]
pub struct Star;

/// All bodies of a star system.
#[derive(Default)]
pub struct System(Vec<BodyIndex>);

impl System {
    pub fn new(bodies: Vec<BodyIndex>) -> (r: Self)
        ensures
            r.bodies_view() == bodies@,
    {
        System(bodies)
    }

    pub closed spec fn bodies_view(&self) -> Seq<BodyIndex> {
        self.0@
    }

    pub fn bodies(&self) -> (r: &Vec<BodyIndex>)
        ensures
            r@ == self.bodies_view(),
    {
        &self.0
    }
}

/// Marks a planet.
#[derive(Debug, Default)]
pub struct Planet;

/// Marks a moon.
#[derive(Debug, Default)]
pub struct Moon;

/// The type of a main sequence star.
#[derive(Debug, Default, Clone, Copy, PartialEq, Eq, Structural)]
pub enum StarType {
    #[default]
    O,
    B,
    A,
    F,
    G,
    K,
    M,
}

/// The detailed class of a main sequence star.
#[derive(Debug, Clone, Copy, PartialEq, Eq, Structural)]
pub struct StarClass {
    pub ty: StarType,
    pub sub_ty: u32,
    pub index: u32,
}

/// The type of a body.
#[derive(Debug, Default, Clone, Copy, PartialEq, Eq, Structural)]
pub enum BodyType {
    #[default]
    Rocky,
    GasGiant,
    IceGiant,
}

/// Marks a body as landable: players can land on it and build facilities.
pub struct Landable;

/// Marks a body whose tilemap is to be generated or loaded.
pub struct ToLoadTilemap;

/// Marks a body whose tilemap is to be saved.
#[derive(Debug, Clone, Copy)]
pub struct ToSaveTilemap {
    /// Whether to remove the tilemap from the body once it is saved.
    pub remove_after_done: bool,
}

} // verus!
