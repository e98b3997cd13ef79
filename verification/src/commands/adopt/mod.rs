//! Turning an ordinary repository into a grove, in place.
pub mod args;
pub mod evidence;
pub mod shown;
pub mod inventory;
pub mod queries;
pub mod ownership;
pub mod private;
pub mod preflight;
pub mod journal;
pub mod steps;
pub mod forward;
pub mod execute;
pub mod reverse;
pub mod recover;
pub mod refusals;
pub mod run;
pub mod untouched;
pub mod undoing;
pub mod kept;
pub mod offline;
pub mod choices;
pub mod preserved;
pub mod reverting;
pub mod restored;
