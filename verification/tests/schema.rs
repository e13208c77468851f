use polarize_core::schema::ScreenshotResponse;

#[test]
fn screenshot_response_encodes_and_decodes_png_bytes() {
    let bytes = vec![0x89, 0x50, 0x4E, 0x47, 0x00, 0x01, 0x02, 0x03];
    let response = ScreenshotResponse::from_png_bytes(&bytes, 100, 200);
    assert_eq!(response.decode_png_bytes().unwrap(), bytes);
}
