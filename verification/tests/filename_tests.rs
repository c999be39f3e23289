use dlsrv::filename::{clean_download_filename, filename_from_url};

#[test]
fn strips_cdn_id_prefix() {
    let raw = "coOPzNwdsNNNdI4PSde-Chef.and.My.Fridge.S02E77.1080p.NF.WEB-DL.x264.AAC2.0-LoveBug%20%5BDRAMADAY.me%5D.mkv";
    let name = clean_download_filename(raw).unwrap();
    assert_eq!(
        name,
        "Chef.and.My.Fridge.S02E77.1080p.NF.WEB-DL.x264.AAC2.0-LoveBug [DRAMADAY.me].mkv"
    );
}

#[test]
fn decodes_url_encoding() {
    let name = clean_download_filename("My%20File.mkv").unwrap();
    assert_eq!(name, "My File.mkv");
}

#[test]
fn filename_from_url_strips_query() {
    let url = "https://cdn.example.com/abc123xyz-Show.S01E01.mkv?token=foo";
    assert_eq!(filename_from_url(url).unwrap(), "Show.S01E01.mkv");
}
