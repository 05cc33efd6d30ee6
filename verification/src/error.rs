use vstd::prelude::*;

verus! {

/// Errors of the image processor. Failures reported by the operating system, the plugin
/// loader or the image codecs are kept as the text that describes them.
pub enum ImgError {
    /// An input/output operation failed.
    Io(String),
    /// The plugin library could not be loaded or lacks its entry point.
    Plugin(String),
    /// An image could not be decoded, encoded or built.
    Image(String),
    /// The input image file does not exist.
    InputFileNotFound(String),
    /// The settings file does not exist.
    ParamsFileNotFound(String),
    /// The output path names a directory.
    OutputIsDirectory(String),
    /// The plugin directory does not exist.
    PluginDirNotFound(String),
    /// The plugin path is not a directory.
    PluginDirNotDirectory(String),
    /// The pixel buffer does not have the size that the image dimensions call for.
    BufferSizeMismatch { expected: usize, actual: usize },
    /// The plugin settings contain a zero byte and cannot be handed over as a C string.
    ParamContainsNul,
    /// Any other failure, with its description.
    Other(String),
}

/// The character of the decimal digit `d`.
pub open spec fn digit_char(d: nat) -> char {
    if d == 0 { '0' }
    else if d == 1 { '1' }
    else if d == 2 { '2' }
    else if d == 3 { '3' }
    else if d == 4 { '4' }
    else if d == 5 { '5' }
    else if d == 6 { '6' }
    else if d == 7 { '7' }
    else if d == 8 { '8' }
    else { '9' }
}

/// Decimal notation of `n`, without leading zeros.
pub open spec fn decimal(n: nat) -> Seq<char>
    decreases n,
{
    if n < 10 {
        seq![digit_char(n)]
    } else {
        decimal(n / 10).push(digit_char(n % 10))
    }
}

/// The text that describes an error.
pub open spec fn error_text(e: ImgError) -> Seq<char> {
    match e {
        ImgError::Io(m) => "Ошибка ввода-вывода: "@ + m@,
        ImgError::Plugin(m) => "Ошибка загрузки плагина: "@ + m@,
        ImgError::Image(m) => "Ошибка работы с изображением: "@ + m@,
        ImgError::InputFileNotFound(p) => "Входной файл не найден: "@ + p@,
        ImgError::ParamsFileNotFound(p) => "Файл параметров не найден: "@ + p@,
        ImgError::OutputIsDirectory(p) => "Путь сохранения ведёт к директории, а не к файлу: "@ + p@,
        ImgError::PluginDirNotFound(p) => "Директория плагинов не найдена: "@ + p@,
        ImgError::PluginDirNotDirectory(p) => "Путь к плагинам не является директорией: "@ + p@,
        ImgError::BufferSizeMismatch { expected, actual } =>
            "Некорректный размер буфера изображения: ожидается "@ + decimal(expected as nat) + ", получено "@ + decimal(actual as nat),
        ImgError::ParamContainsNul => "Строка параметров содержит нулевой байт"@,
        ImgError::Other(m) => m@,
    }
}

/// Appends the decimal notation of `n` to `s`.
pub fn push_decimal(s: &mut String, n: usize)
    ensures
        final(s)@ == old(s)@ + decimal(n as nat),
    decreases n,
{
    if n >= 10 {
        push_decimal(s, n / 10);
    }
    let d = n % 10;
    let digit: &str = if d == 0 {
        "0"
    } else if d == 1 {
        "1"
    } else if d == 2 {
        "2"
    } else if d == 3 {
        "3"
    } else if d == 4 {
        "4"
    } else if d == 5 {
        "5"
    } else if d == 6 {
        "6"
    } else if d == 7 {
        "7"
    } else if d == 8 {
        "8"
    } else {
        "9"
    };
    proof {
        reveal_strlit("0");
        reveal_strlit("1");
        reveal_strlit("2");
        reveal_strlit("3");
        reveal_strlit("4");
        reveal_strlit("5");
        reveal_strlit("6");
        reveal_strlit("7");
        reveal_strlit("8");
        reveal_strlit("9");
    }
    assert(digit@ == seq![digit_char(d as nat)]);
    s.append(digit);
    assert(s@ =~= old(s)@ + decimal(n as nat));
}

/// Text made of the prefix `prefix` followed by `rest`.
pub(crate) fn prefixed(prefix: &str, rest: &String) -> (m: String)
    ensures
        m@ == prefix@ + rest@,
{
    let mut m = String::from_str(prefix);
    m.append(rest.as_str());
    m
}

impl ImgError {
    /// The input image file `path` does not exist.
    pub fn input_not_found(path: &str) -> (e: Self)
        ensures
            e matches ImgError::InputFileNotFound(p) && p@ == path@,
    {
        ImgError::InputFileNotFound(String::from_str(path))
    }

    /// The settings file `path` does not exist.
    pub fn params_not_found(path: &str) -> (e: Self)
        ensures
            e matches ImgError::ParamsFileNotFound(p) && p@ == path@,
    {
        ImgError::ParamsFileNotFound(String::from_str(path))
    }

    /// The output path `path` names a directory.
    pub fn output_is_directory(path: &str) -> (e: Self)
        ensures
            e matches ImgError::OutputIsDirectory(p) && p@ == path@,
    {
        ImgError::OutputIsDirectory(String::from_str(path))
    }

    /// The plugin directory `path` does not exist.
    pub fn plugin_dir_not_found(path: &str) -> (e: Self)
        ensures
            e matches ImgError::PluginDirNotFound(p) && p@ == path@,
    {
        ImgError::PluginDirNotFound(String::from_str(path))
    }

    /// The plugin path `path` is not a directory.
    pub fn plugin_dir_not_directory(path: &str) -> (e: Self)
        ensures
            e matches ImgError::PluginDirNotDirectory(p) && p@ == path@,
    {
        ImgError::PluginDirNotDirectory(String::from_str(path))
    }

    /// The text that describes this error.
    pub fn message(&self) -> (m: String)
        ensures
            m@ == error_text(*self),
    {
        match self {
            ImgError::Io(m) => prefixed("Ошибка ввода-вывода: ", m),
            ImgError::Plugin(m) => prefixed("Ошибка загрузки плагина: ", m),
            ImgError::Image(m) => prefixed("Ошибка работы с изображением: ", m),
            ImgError::InputFileNotFound(p) => prefixed("Входной файл не найден: ", p),
            ImgError::ParamsFileNotFound(p) => prefixed("Файл параметров не найден: ", p),
            ImgError::OutputIsDirectory(p) => prefixed("Путь сохранения ведёт к директории, а не к файлу: ", p),
            ImgError::PluginDirNotFound(p) => prefixed("Директория плагинов не найдена: ", p),
            ImgError::PluginDirNotDirectory(p) => prefixed("Путь к плагинам не является директорией: ", p),
            ImgError::BufferSizeMismatch { expected, actual } => {
                let mut m = String::from_str("Некорректный размер буфера изображения: ожидается ");
                push_decimal(&mut m, *expected);
                m.append(", получено ");
                push_decimal(&mut m, *actual);
                m
            },
            ImgError::ParamContainsNul => String::from_str("Строка параметров содержит нулевой байт"),
            ImgError::Other(m) => m.clone(),
        }
    }
}

} // verus!
