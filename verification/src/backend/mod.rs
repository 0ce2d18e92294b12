pub mod capture;
