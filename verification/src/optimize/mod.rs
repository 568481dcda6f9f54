//! The Optimize actions: eleven named maintenance tasks, the checks that
//! stand in front of them, and the run that carries them out.

pub mod table;
pub mod guard;
pub mod dynamic;
pub mod run;
pub mod execute;
pub mod laws;
