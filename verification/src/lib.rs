//! Asset-extraction pipeline for a design-tool document tree: discovers
//! image-bearing nodes, plans a batched render-URL request, plans the
//! download and conversion work, and aggregates per-task outcomes.
pub mod cli;
pub mod config;
pub mod converter;
pub mod downloader;
pub mod extractor;
pub mod filename;
pub mod node;
pub mod pipeline;
pub mod resolver;

pub use cli::{Cli, Commands};
pub use config::FigmaConfig;
pub use converter::{
    has_png_ext, plan_conversions, ConversionError, ConversionTask, ImageConverter, TargetFormat,
};
pub use downloader::{
    accept_download, has_duplicate_dest, plan_downloads, png_destination, DownloadError,
    DownloadTask,
};
pub use extractor::FigmaImageExtractor;
pub use filename::sanitize;
pub use node::{DocumentNode, Fill, FillType, NodeType};
pub use pipeline::{
    aggregate_results, ConversionLimiter, DownloadOptions, PermitEvent, PipelineOutcome,
    CONVERSION_CONCURRENCY_LIMIT,
};
pub use resolver::{
    find_name, ids_csv, join_render_urls, resolve_render_urls, ApiError, RenderRequest,
    RenderUrlEntry,
};
