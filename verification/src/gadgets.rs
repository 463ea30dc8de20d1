pub mod prepare;
