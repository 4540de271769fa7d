use linear_object::shaders::{fragment_shader, vertex_shader, FRAGMENT_SHADER_SOURCE, VERTEX_SHADER_SOURCE};

#[test]
fn vertex_shader_is_the_vertex_source() {
    assert_eq!(vertex_shader(), VERTEX_SHADER_SOURCE);
    assert!(vertex_shader().contains("gl_Position"));
    assert!(vertex_shader().contains("attribute vec3 position;"));
    assert!(vertex_shader().contains("attribute vec4 color;"));
}

#[test]
fn fragment_shader_is_the_fragment_source() {
    assert_eq!(fragment_shader(), FRAGMENT_SHADER_SOURCE);
    assert!(fragment_shader().contains("gl_FragColor"));
    assert_ne!(fragment_shader(), vertex_shader());
}
