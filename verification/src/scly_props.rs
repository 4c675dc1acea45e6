pub mod debris;
