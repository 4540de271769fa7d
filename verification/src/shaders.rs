//! Shader programs handed to the rendering host as source text.

use vstd::prelude::*;

verus! {

/// Source of the vertex stage: it forwards a three-component position bound
/// at attribute slot 0 and a four-component colour bound at slot 1.
pub const VERTEX_SHADER_SOURCE: &'static str =
    "attribute vec3 position;\nattribute vec4 color;\nvarying vec4 v_color;\nvoid main() {\n    gl_Position = vec4(position, 1);\n    v_color = color;\n}\n";

/// Source of the fragment stage: it paints the interpolated colour.
pub const FRAGMENT_SHADER_SOURCE: &'static str =
    "precision mediump float;\nvarying vec4 v_color;\nvoid main() {\n    gl_FragColor = v_color;\n}\n";

/// The vertex shader's source text.
pub fn vertex_shader() -> (source: &'static str)
    ensures
        source@ == VERTEX_SHADER_SOURCE@,
{
    VERTEX_SHADER_SOURCE
}

/// The fragment shader's source text.
pub fn fragment_shader() -> (source: &'static str)
    ensures
        source@ == FRAGMENT_SHADER_SOURCE@,
{
    FRAGMENT_SHADER_SOURCE
}

} // verus!
