//! Analysis of GOES-R/S Fire Detection Characteristics data: satellite and sector metadata,
//! scan times from file names, the grouping of fire pixels into clusters, the Hilbert curve,
//! fire codes and the bookkeeping of fires over time, the decisions of the programs that find
//! clusters and connect them into fires, the binary storage format of pixel lists, and the text
//! of KML documents.

pub mod text;
pub mod satellite;
pub mod decimal;
pub mod error;
pub mod fire_database;
pub mod utc;
pub mod scan_time;
pub mod hilbert;
pub mod cluster;
pub mod findfire;
pub mod fire;
pub mod connect;
pub mod singlefire;
pub mod pixel;
pub mod database;
pub mod kml;
pub mod firesatimage;
