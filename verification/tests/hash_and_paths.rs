use qtcre::utils::normalise;
use qtcre::utils::qt_hash;
use qtcre::utils::str_to_unix_path;

#[test]
fn should_generate_correct_hash() {
    assert_eq!(qt_hash("certs", 0), 6932915);
    assert_eq!(qt_hash("Client", 0), 77790292);
    assert_eq!(qt_hash("client.p12", 0), 207230626);
}

#[test]
fn should_convert_windows_paths() {
    for path in [
        "C:\\images\\small.jpg",
        "D:\\images\\small.jpg",
        "X:\\images\\small.jpg",
    ] {
        let result = str_to_unix_path(path);
        assert_eq!(result, "/images/small.jpg");
    }

    let result = str_to_unix_path("\\images\\small.jpg");
    assert_eq!(result, "/images/small.jpg");

    let result = str_to_unix_path(".\\images\\small.jpg");
    assert_eq!(result, "./images/small.jpg");

    let result = str_to_unix_path("..\\images\\small.jpg");
    assert_eq!(result, "../images/small.jpg");

    let result = str_to_unix_path("images\\small.jpg");
    assert_eq!(result, "images/small.jpg");
}

#[test]
fn should_leave_unix_paths_intact() {
    let result = str_to_unix_path("/images/small.jpg");
    assert_eq!(result, "/images/small.jpg");

    let result = str_to_unix_path("./images/small.jpg");
    assert_eq!(result, "./images/small.jpg");

    let result = str_to_unix_path("../images/small.jpg");
    assert_eq!(result, "../images/small.jpg");

    let result = str_to_unix_path("images/small.jpg");
    assert_eq!(result, "images/small.jpg");
}

#[test]
fn hash_walks_surrogate_pairs() {
    // U+1D11E encodes as the surrogate pair D834 DD1E
    assert_eq!(qt_hash("\u{1D11E}", 0), 942174);
}

#[test]
fn hash_chains_across_calls() {
    let h = qt_hash("certs", 0);
    assert_eq!(qt_hash("", h), h);
    assert_ne!(qt_hash("certs", h), h);
}

#[test]
fn normalise_absolutises_and_folds() {
    assert_eq!(normalise("images/small.jpg"), "/images/small.jpg");
    assert_eq!(normalise("/a/./b/../c"), "/a/c");
    assert_eq!(normalise("../images"), "/images");
    assert_eq!(normalise("C:\\images\\small.jpg"), "/images/small.jpg");
    assert_eq!(normalise("//a///b//"), "/a/b");
    assert_eq!(normalise(""), "/");
    assert_eq!(normalise("/.."), "/");
}

#[test]
fn normalise_is_idempotent_on_examples() {
    for p in [
        "images/small.jpg",
        "/a/./b/../c",
        "..\\images\\small.jpg",
        "C:\\x\\y",
        "",
        "/",
        "a//b/./../c/d",
    ] {
        let once = normalise(p);
        let twice = normalise(&once);
        assert_eq!(twice, once);
    }
}
