use anim_raster::bytes::{crop_bytes, flip_bytes, flip_bytes_mut, kleihash, mult_alpha, mult_alpha_impl};
use anim_raster::fmod::{add, check_result, format_fmod_result, t, FmodData};
use anim_raster::RasterError;

#[test]
fn check_hash() {
    let smallhash = |s: &str| kleihash(s.as_bytes());
    assert_eq!(smallhash("DontStarve"), 2178190994);
    assert_eq!(smallhash("老王天天写bug"), 3695745239);
    kleihash(&vec![0, 0, 0]);
    kleihash(&vec![255, 255, 255, 255]);
}

#[test]
fn hash_folds_case() {
    assert_eq!(kleihash(b"ABC"), kleihash(b"abc"));
    assert_eq!(kleihash(b""), 0);
    assert_eq!(kleihash(b"a"), 97);
}

#[test]
fn it_works() {
    let result = add(2, 2);
    assert_eq!(result, 4);
}

#[test]
fn match_error_code() {
    assert_eq!(format_fmod_result(12), "FMOD_RESULT_FMOD_ERR_COM".to_string());
    assert_eq!(format_fmod_result(0), "FMOD_RESULT_FMOD_OK".to_string());
    assert_eq!(format_fmod_result(100), "FMOD_RESULT_FMOD_ERR__UNKNOWN:100".to_string());
}

#[test]
fn result_codes() {
    assert_eq!(format_fmod_result(95), "FMOD_RESULT_FMOD_ERR_MUSIC_NOCALLBACK");
    assert_eq!(format_fmod_result(96), "FMOD_RESULT_FMOD_ERR__UNKNOWN:96");
    assert_eq!(format_fmod_result(4294967295), "FMOD_RESULT_FMOD_ERR__UNKNOWN:4294967295");
    assert_eq!(check_result(0), Ok(()));
    assert_eq!(check_result(23), Err((23, "FMOD_RESULT_FMOD_ERR_FILE_NOTFOUND".to_string())));
    assert_eq!(t(), "111");
    let d = FmodData::new("x".to_string());
    assert!(d.dirty);
    assert_eq!(d.content, "x");
}

#[test]
fn crop_bytes_cases() {
    let bytes: Vec<u8> = (0..12).collect();
    assert_eq!(crop_bytes(&bytes, 3, 2, 1, 0, 2, 2, 2), Ok(vec![2, 3, 4, 5, 8, 9, 10, 11]));
    assert_eq!(crop_bytes(&bytes, 3, 2, 2, 0, 2, 1, 2), Err(RasterError::Validation));
    assert_eq!(crop_bytes(&bytes, 3, 3, 0, 0, 1, 1, 2), Err(RasterError::Validation));
    assert_eq!(crop_bytes(&bytes, 3, 2, 0, 0, 0, 2, 2), Ok(vec![]));
}

#[test]
fn flip_bytes_reverses_rows() {
    assert_eq!(flip_bytes(&[1, 2, 3, 4, 5, 6], 2), vec![5, 6, 3, 4, 1, 2]);
    assert_eq!(flip_bytes(&[9, 1, 2, 3, 4], 2), vec![3, 4, 1, 2]);
    assert_eq!(flip_bytes(&[], 3), Vec::<u8>::new());
}

#[test]
fn premultiply_alpha() {
    assert_eq!(mult_alpha_impl(200, 0), 0);
    assert_eq!(mult_alpha_impl(200, 255), 200);
    assert_eq!(mult_alpha_impl(200, 128), 100);
    assert_eq!(mult_alpha(&[200, 100, 50, 128, 1, 2, 3, 255, 7]), vec![100, 50, 25, 128, 1, 2, 3, 255]);
}

#[test]
fn flip_bytes_mut_in_place() {
    let mut v = vec![1, 2, 3, 4, 5, 6];
    flip_bytes_mut(&mut v, 2);
    assert_eq!(v, vec![5, 6, 3, 4, 1, 2]);
    let mut w = vec![1, 2, 3, 4];
    flip_bytes_mut(&mut w, 2);
    assert_eq!(w, vec![3, 4, 1, 2]);
    let mut odd = vec![9, 1, 2, 3, 4];
    flip_bytes_mut(&mut odd, 2);
    assert_eq!(odd, vec![3, 4, 2, 9, 1]);
    let mut three = vec![1, 2, 3, 4, 5, 6];
    flip_bytes_mut(&mut three, 3);
    assert_eq!(three, vec![4, 5, 6, 1, 2, 3]);
}
