//! The core of an application launcher: finding the icon of an
//! application among the icon themes on disk, rendering it to a small
//! raster image, and keeping the rendered images in a cache from one run
//! to the next.
//!
//! The library decides and computes, and starts no thread. Its caller
//! lists directories, reads and writes files and runs the worker, as the
//! library tells it to. One codec looks at the disk on its own: the parser
//! of vector documents may read image files that a document names.
//!
//! - `tree` mirrors the icon directories, `finder` searches them for the
//!   files of an icon, `descriptor` reads size and scale from directory
//!   names, and `select` picks the file that fits best.
//! - `render` turns the content of an icon file into the canonical raster,
//!   with the help of the codecs in `codecs`.
//! - `manager` keeps the records of the cache (`model`), queues requests
//!   for the worker (`loader`) and collects what is to be thrown away;
//!   `icons` is its plain form without a worker.
//! - `apps` makes applications from the entries of desktop files, with
//!   the digest in `digest`; `config`, `search`, `shortcuts` and `ui` hold
//!   what else the launcher shares with the library.
//! - `text`, `path` and `idset` are the tools of the rest.

pub mod apps;
pub mod codecs;
pub mod config;
pub mod descriptor;
pub mod digest;
pub mod finder;
pub mod icons;
pub mod idset;
pub mod loader;
pub mod manager;
pub mod model;
pub mod path;
pub mod render;
pub mod search;
pub mod select;
pub mod shortcuts;
pub mod text;
pub mod tree;
pub mod ui;
