use fourier_gif::gif_file::FGif;

#[test]
fn starting_a_file_succeeds() {
    assert!(FGif::write_to("unused.gif").is_ok());
}
