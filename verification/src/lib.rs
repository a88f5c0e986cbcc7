//! A markup language with bracketed tags, rendered to HTML.
#![allow(non_camel_case_types)]
#![allow(non_snake_case)]

pub mod pattern;
pub mod text;
pub mod tags;
pub mod tokenize;
pub mod render;
pub mod fmd;
pub mod site;

pub use crate::fmd::{
    CodeFormatting, FmdFile, DEFINITION, FMD, FMD_FILES_AND_TITLES, INCLUDED_RESOURCES,
};
pub use crate::site::{
    appendix_html, generate_toc, get_dir_depth, has_fmd_argument, is_fmd_file, relink,
    table_of_contents, CommandLineArguments, JOBS, JOB_STATE,
};
pub use crate::tokenize::MDBounds;
