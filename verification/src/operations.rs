pub mod ariths;
