//! Composition of a single chart view: range resolution over the plotted
//! series, and the layout of the text and vector renderings.

use vstd::prelude::*;

pub mod canvas;
pub mod coord;
pub mod view;
