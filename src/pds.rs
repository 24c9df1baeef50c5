pub mod accounting;
pub mod epoch_pds;
