//! katSVG engine: prompt routing, layout specifications, region composition
//! and document exporters (SVG, PDF, PNG, PPTX), with their contracts proved.

pub mod font;
pub mod router;
pub mod strs;
pub mod strutil;
pub mod bytes;
pub mod crc;
pub mod zip;
pub mod exporter;
pub mod pptx_parts;
pub mod pdf;
pub mod pdf_page;
pub mod textscan;
pub mod numtext;
pub mod data_binding;
pub mod icon;
pub mod icon_path;
pub mod compositor;
pub mod raster;
pub mod png;
pub mod http;
pub mod chart_shapes;
pub mod retrieval;
pub mod pdf_font;
pub mod palette;
pub mod json_binding;

pub use chart_shapes::ChartColors;
pub use compositor::{fit_requests, render_svg_regions, RegionRect, Slot, TextFit};
pub use data_binding::{data_format, parse_csv, CsvChart, DataFormat};
pub use exporter::PPTXPresentationExporter;
pub use icon::IconRenderer;
pub use json_binding::{bind_data, bind_json, parse_json, DataBinding, JsonBinding, JsonChart};
pub use palette::{PaletteColors, PaletteEntry, PaletteRegistry, PaletteRoles};
pub use pdf::PDFVectorExporter;
pub use pdf_page::{PdfCardPlace, PdfPlacement, PdfSectionPlace};
pub use png::{PNGRasterExporter, RasterOp};
pub use retrieval::{EmbeddingRetriever, TagRetriever};
pub use router::{
    ChartType, PromptChart,
    AspectRatio, InfographicConstraintPruner, InfographicIntentRouter, InfographicLayoutSpec, LayoutType,
    MetricCardSpec, PaletteTheme, SVGVectorRenderer, SectionSpec,
};
pub use strs::{Lang, Strs};
