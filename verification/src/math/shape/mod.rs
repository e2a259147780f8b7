pub mod icosahedron;
