pub mod bootloader;
pub mod coverage;
pub mod editing;
pub mod float_bits;
pub mod geometry_file;
pub mod journal;
pub mod lh_geo;
pub mod lh_wizard;
pub mod lists;
pub mod logging;
pub mod manual_control;
pub mod obstacle_mesh;
pub mod operations;
pub mod planning;
pub mod plot;
pub mod positioning;
pub mod radio;
pub mod sorting;
pub mod tdoa_display;
pub mod telemetry;
pub mod text;
pub mod units;
pub mod uri;
pub mod yaml;
