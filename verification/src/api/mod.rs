pub mod firebase;
