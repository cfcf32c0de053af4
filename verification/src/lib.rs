//! Verified core of the Ira game library's user interface: the decisions,
//! orderings and text that the GTK front end shows, separated from the
//! widgets, the database and the network.

// Text and order: the character-level helpers everything else builds on.
pub mod text;
pub mod order;

// The library views: which games show, in what order and under which
// sections, and what the selection covers.
pub mod filter;
pub mod grouping;
pub mod selection;
pub mod game_view;

// Metadata: the entities and records the scraper pages edit, and the
// staging that keeps edits out of the database until Save.
pub mod entities;
pub mod entity_edits;
pub mod entity_pages;
pub mod metadata;
pub mod match_staging;

// Background passes: metadata refetches and the missing-images pass.
pub mod refetch;
pub mod images;
pub mod disc_art;

// The game settings dialog and the context menus.
pub mod game_edits;
pub mod menus;
pub mod controller;
pub mod playtime;
pub mod api_emulator;
pub mod lutris;
pub mod dlc;

// Settings and the couch shell.
pub mod folders;
pub mod disk_space;
pub mod battery;
pub mod couch;
