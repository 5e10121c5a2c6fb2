pub mod game;
pub mod gateway;
pub mod selection;
pub mod translate;
