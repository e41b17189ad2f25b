pub mod bounds;
pub mod circle;
pub mod glyphs;
pub mod line;
pub mod line_group;
pub mod line_mesh;
pub mod rand;
pub mod scatter;
pub mod settings;
pub mod system_param;
pub mod transform;

pub use settings::{LineRendererMaterial, LineRendererSettings, LineRendererWidth, PackError, Ratio, LINE_NUMBER};
