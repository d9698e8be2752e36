// Integer core of a small software renderer: line and triangle rasterization
// on a signed pixel canvas, the canvas scan of a ray-tracing pass, the choice
// of the closest sphere along a ray and the reflection decision.
pub mod order_key;
pub mod rasterizer;
pub mod raytracer;
pub mod utilities;
