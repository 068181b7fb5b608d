//! Verified editing core of QuickPaint: the document and its layer stack,
//! the undo history, animation frames, the clipboard and the selection,
//! palettes, export presets and brand kits, template content, keyboard
//! shortcuts, and the integer pixel helpers (cropping, trimming, histogram,
//! red-eye mask, cutout mask, upscaling), the paint-bucket flood fill, the
//! one-click cutout into layer masks, mirroring and shifting the painted
//! content, and lists of values saved under a name.

pub mod i18n;
pub mod text;
pub mod theme;
pub mod tools;
pub mod raster;
pub mod document;
pub mod history;
pub mod presets;
pub mod editor;
pub mod layers_ops;
pub mod animation;
pub mod palette;
pub mod clipboard;
pub mod templates;
pub mod shortcuts;
pub mod fill;
pub mod named;
pub mod transform;
