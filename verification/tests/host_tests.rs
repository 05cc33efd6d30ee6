use image_plugin::cli_check::{check_io_paths, check_plugin_dir, must_create_parent, ArgsError, PathStatus};
use image_plugin::error::{push_decimal, ImgError};
use image_plugin::image_data::{ImageData, RgbaBuffer};
use image_plugin::loader::{check_buffer_size, check_params_text, plugin_filename};

fn status(path: &str, exists: bool, is_dir: bool) -> PathStatus {
    PathStatus { path: path.to_string(), exists, is_dir }
}

#[test]
fn plugin_filename_per_os() {
    assert_eq!(plugin_filename("windows", "blur_plugin"), "blur_plugin.dll");
    assert_eq!(plugin_filename("macos", "blur_plugin"), "libblur_plugin.dylib");
    assert_eq!(plugin_filename("linux", "mirror_plugin"), "libmirror_plugin.so");
    assert_eq!(plugin_filename("freebsd", "x"), "libx.so");
}

#[test]
fn buffer_size_matches() {
    assert_eq!(check_buffer_size(2, 3, 24).ok(), Some(24));
}

#[test]
fn buffer_size_mismatch_reported() {
    match check_buffer_size(2, 3, 20) {
        Err(ImgError::BufferSizeMismatch { expected, actual }) => {
            assert_eq!(expected, 24);
            assert_eq!(actual, 20);
        }
        _ => panic!("expected a size mismatch"),
    }
    let e = check_buffer_size(2, 3, 20).err().unwrap();
    assert_eq!(
        e.message(),
        "Некорректный размер буфера изображения: ожидается 24, получено 20"
    );
}

#[test]
fn params_with_zero_byte_rejected() {
    assert!(check_params_text("{\"radius\": 3}").is_ok());
    assert!(matches!(check_params_text("{\"radius\"\0: 3}"), Err(ImgError::ParamContainsNul)));
    assert_eq!(
        ImgError::ParamContainsNul.message(),
        "Строка параметров содержит нулевой байт"
    );
}

#[test]
fn error_constructors_and_messages() {
    assert_eq!(ImgError::input_not_found("a.png").message(), "Входной файл не найден: a.png");
    assert_eq!(ImgError::params_not_found("p.json").message(), "Файл параметров не найден: p.json");
    assert_eq!(
        ImgError::output_is_directory("out").message(),
        "Путь сохранения ведёт к директории, а не к файлу: out"
    );
    assert_eq!(ImgError::plugin_dir_not_found("d").message(), "Директория плагинов не найдена: d");
    assert_eq!(
        ImgError::plugin_dir_not_directory("f").message(),
        "Путь к плагинам не является директорией: f"
    );
    assert_eq!(ImgError::Other("boom".to_string()).message(), "boom");
    assert_eq!(ImgError::Io("x".to_string()).message(), "Ошибка ввода-вывода: x");
    assert_eq!(ImgError::Plugin("y".to_string()).message(), "Ошибка загрузки плагина: y");
}

#[test]
fn decimal_notation() {
    let mut s = String::from("n=");
    push_decimal(&mut s, 0);
    assert_eq!(s, "n=0");
    let mut s = String::new();
    push_decimal(&mut s, 1_234_567_890);
    assert_eq!(s, "1234567890");
    let mut s = String::new();
    push_decimal(&mut s, usize::MAX);
    assert_eq!(s, usize::MAX.to_string());
}

#[test]
fn rgba_buffer_built_when_large_enough() {
    let img = ImageData { width: 2, height: 1, data: vec![1, 2, 3, 4, 5, 6, 7, 8] };
    let buffer = img.into_rgba_buffer().ok().unwrap();
    assert_eq!(buffer.image.dimensions(), (2, 1));
    assert_eq!(buffer.image.into_raw(), vec![1, 2, 3, 4, 5, 6, 7, 8]);
}

#[test]
fn rgba_buffer_refused_when_too_small() {
    let img = ImageData { width: 2, height: 2, data: vec![0; 15] };
    let e = img.into_rgba_buffer().err().unwrap();
    assert_eq!(
        e.message(),
        "Ошибка работы с изображением: The parameter is malformed: Не удалось создать ImageBuffer из сырых данных"
    );
}

#[test]
fn io_paths_checked_in_order() {
    let ok = status("in.png", true, false);
    let missing = status("nope", false, false);
    let dir = status("outdir", true, true);
    assert!(check_io_paths(&ok, &ok, &status("out.png", false, false)).is_ok());
    match check_io_paths(&missing, &missing, &dir) {
        Err(ArgsError::InputMissing(p)) => assert_eq!(p, "nope"),
        _ => panic!("input should be reported first"),
    }
    match check_io_paths(&ok, &missing, &dir) {
        Err(ArgsError::ParamsMissing(p)) => assert_eq!(p, "nope"),
        _ => panic!("settings should be reported second"),
    }
    let e = check_io_paths(&ok, &ok, &dir).err().unwrap();
    assert_eq!(
        e.message(),
        "Выходной путь является директорией, а должен быть файлом: outdir"
    );
}

#[test]
fn plugin_dir_checked() {
    assert!(check_plugin_dir(&status("target/debug", true, true)).is_ok());
    assert_eq!(
        check_plugin_dir(&status("x", false, false)).err().unwrap().message(),
        "Директория с плагинами не найдена: x"
    );
    assert_eq!(
        check_plugin_dir(&status("f.txt", true, false)).err().unwrap().message(),
        "Путь к плагину должен быть директорией: f.txt"
    );
}

#[test]
fn parent_creation_decision() {
    assert!(!must_create_parent(&None));
    assert!(must_create_parent(&Some(status("new_dir", false, false))));
    assert!(!must_create_parent(&Some(status("existing", true, true))));
}

#[test]
fn image_data_from_rgba_buffer() {
    let raw = vec![9u8; 3 * 2 * 4];
    let buffer = RgbaBuffer { image: image::ImageBuffer::from_raw(3, 2, raw.clone()).unwrap() };
    let img = ImageData::from_rgba_buffer(buffer);
    assert_eq!((img.width, img.height), (3, 2));
    assert_eq!(img.data, raw);
}

#[test]
fn image_data_round_trip_through_buffer() {
    let data: Vec<u8> = (0..24u8).collect();
    let img = ImageData { width: 2, height: 3, data: data.clone() };
    let back = ImageData::from_rgba_buffer(img.into_rgba_buffer().ok().unwrap());
    assert_eq!((back.width, back.height), (2, 3));
    assert_eq!(back.data, data);
}

#[test]
fn image_data_encoded_then_decoded() {
    let data: Vec<u8> = (0..24u8).map(|v| v * 10).collect();
    let img = ImageData { width: 3, height: 2, data: data.clone() };
    let file = img.encode("png").ok().unwrap();
    assert_eq!(&file[..8], &[0x89, b'P', b'N', b'G', 0x0d, 0x0a, 0x1a, 0x0a]);
    let back = ImageData::decode("png", &file).ok().unwrap();
    assert_eq!((back.width, back.height), (3, 2));
    assert_eq!(back.data, data);
}

#[test]
fn image_data_decoded_with_upper_case_extension() {
    let img = ImageData { width: 1, height: 1, data: vec![1, 2, 3, 4] };
    let file = img.encode("PNG").ok().unwrap();
    let back = ImageData::decode("PNG", &file).ok().unwrap();
    assert_eq!(back.data, vec![1, 2, 3, 4]);
}

#[test]
fn image_data_decode_rejects_garbage() {
    match ImageData::decode("png", &[1, 2, 3, 4, 5]) {
        Err(ImgError::Image(m)) => assert!(!m.is_empty()),
        _ => panic!("bytes that are no PNG file must be refused"),
    }
}

#[test]
fn image_data_decode_rejects_unknown_extension() {
    let file = ImageData { width: 1, height: 1, data: vec![0; 4] }.encode("png").ok().unwrap();
    match ImageData::decode("xyz", &file) {
        Err(ImgError::Image(m)) => assert!(m.contains("xyz")),
        _ => panic!("an unknown extension must be refused"),
    }
    match ImageData::decode("", &file) {
        Err(ImgError::Image(m)) => assert!(!m.is_empty()),
        _ => panic!("a missing extension must be refused"),
    }
}

#[test]
fn image_data_encode_rejects_unknown_extension() {
    let img = ImageData { width: 1, height: 1, data: vec![0; 4] };
    match img.encode("xyz") {
        Err(ImgError::Image(m)) => assert!(m.contains("xyz")),
        _ => panic!("an unknown extension must be refused"),
    }
}

#[test]
fn image_data_encode_rejects_short_buffer() {
    let img = ImageData { width: 2, height: 2, data: vec![0; 15] };
    assert_eq!(
        img.encode("png").err().unwrap().message(),
        "Ошибка работы с изображением: The parameter is malformed: Не удалось создать ImageBuffer из сырых данных"
    );
}

#[test]
fn image_data_extension_with_separator_refused() {
    let file = ImageData { width: 1, height: 1, data: vec![0; 4] }.encode("png").ok().unwrap();
    match ImageData::decode("png/x", &file) {
        Err(ImgError::Image(m)) => assert!(!m.is_empty()),
        _ => panic!("an extension with a separator names no format"),
    }
    match (ImageData { width: 1, height: 1, data: vec![0; 4] }).encode("png/x") {
        Err(ImgError::Image(m)) => assert!(!m.is_empty()),
        _ => panic!("an extension with a separator names no format"),
    }
}
