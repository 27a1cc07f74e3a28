//! A small catalog of books: each book gets a unique, increasing identifier and
//! one genre out of a closed set.

pub mod biblioteca;
pub mod genero;

pub use biblioteca::{BibliotecaStorage, CatalogoView, Livro, LivroView};
pub use genero::Genero;
