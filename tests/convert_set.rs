use hd_fpv_osd_font_tool::convert_set::{
    argument_norm_args, identify_conversion, identify_convert_set_arg, ConvertSetArg,
    ConvertSetError, InvalidConvertArgError, InvalidConvertSetArgError,
};

fn bin_err(m: &'static str) -> InvalidConvertSetArgError {
    InvalidConvertSetArgError::BinSetInvalidArguments(m)
}

fn grids_err(m: &'static str) -> InvalidConvertSetArgError {
    InvalidConvertSetArgError::TileSetGridsInvalidArguments(m)
}

#[test]
fn unknown_prefix_is_refused() {
    assert_eq!(
        identify_convert_set_arg("foo:bar"),
        Err(InvalidConvertSetArgError::InvalidConvertArgError(InvalidConvertArgError::InvalidPrefix(
            "foo".to_string()
        )))
    );
}

#[test]
fn missing_prefix_is_refused() {
    assert_eq!(
        identify_convert_set_arg("noprefixhere"),
        Err(InvalidConvertSetArgError::InvalidConvertArgError(InvalidConvertArgError::NoPrefix))
    );
    assert_eq!(
        identify_convert_set_arg(""),
        Err(InvalidConvertSetArgError::InvalidConvertArgError(InvalidConvertArgError::NoPrefix))
    );
}

#[test]
fn prefix_must_match_exactly() {
    assert_eq!(
        identify_convert_set_arg("BinSet:a:b:c:d"),
        Err(InvalidConvertSetArgError::InvalidConvertArgError(InvalidConvertArgError::InvalidPrefix(
            "BinSet".to_string()
        )))
    );
    assert_eq!(
        identify_convert_set_arg(":x"),
        Err(InvalidConvertSetArgError::InvalidConvertArgError(InvalidConvertArgError::InvalidPrefix(
            String::new()
        )))
    );
}

#[test]
fn binset_reads_four_paths() {
    assert_eq!(
        identify_convert_set_arg("binset:a.bin:a_2.bin:b.bin:b_2.bin"),
        Ok(ConvertSetArg::BinFileSet {
            sd_path: "a.bin",
            sd_2_path: "a_2.bin",
            hd_path: "b.bin",
            hd_2_path: "b_2.bin"
        })
    );
}

#[test]
fn binset_arity() {
    assert_eq!(identify_convert_set_arg("binset:a"), Err(bin_err("too few arguments")));
    assert_eq!(identify_convert_set_arg("binset:a:b:c"), Err(bin_err("too few arguments")));
    assert_eq!(identify_convert_set_arg("binset:"), Err(bin_err("too few arguments")));
    assert_eq!(identify_convert_set_arg("binset:a:b:c:d:e"), Err(bin_err("too many arguments")));
}

#[test]
fn binset_keeps_empty_fields() {
    assert_eq!(
        identify_convert_set_arg("binset:::d:"),
        Ok(ConvertSetArg::BinFileSet { sd_path: "", sd_2_path: "", hd_path: "d", hd_2_path: "" })
    );
}

#[test]
fn binsetnorm_reads_dir_and_ident() {
    assert_eq!(
        identify_convert_set_arg("binsetnorm:/b:font1"),
        Ok(ConvertSetArg::BinFileSetNorm { dir: "/b", ident: Some("font1") })
    );
    assert_eq!(
        identify_convert_set_arg("binsetnorm:/b"),
        Ok(ConvertSetArg::BinFileSetNorm { dir: "/b", ident: None })
    );
    assert_eq!(identify_convert_set_arg("binsetnorm:/b:x:y"), Err(bin_err("too many arguments")));
}

#[test]
fn tilesetgrids_reads_two_paths() {
    assert_eq!(
        identify_convert_set_arg("tilesetgrids:sd.png:hd.png"),
        Ok(ConvertSetArg::TileSetGrids { sd_path: "sd.png", hd_path: "hd.png" })
    );
    assert_eq!(identify_convert_set_arg("tilesetgrids:sd.png"), Err(grids_err("too few arguments")));
    assert_eq!(identify_convert_set_arg("tilesetgrids:a:b:c"), Err(grids_err("too many arguments")));
}

#[test]
fn tilesetgridsnorm_reads_dir_and_ident() {
    assert_eq!(
        identify_convert_set_arg("tilesetgridsnorm:grids:bf"),
        Ok(ConvertSetArg::TileSetGridsNorm { dir: "grids", ident: Some("bf") })
    );
    assert_eq!(
        identify_convert_set_arg("tilesetgridsnorm:grids"),
        Ok(ConvertSetArg::TileSetGridsNorm { dir: "grids", ident: None })
    );
    assert_eq!(identify_convert_set_arg("tilesetgridsnorm:a:b:c"), Err(grids_err("too many arguments")));
}

#[test]
fn directory_kinds_take_the_whole_payload() {
    assert_eq!(identify_convert_set_arg("tilesetdir:/a"), Ok(ConvertSetArg::TileSetDir("/a")));
    assert_eq!(identify_convert_set_arg("tilesetdir:c:/tiles"), Ok(ConvertSetArg::TileSetDir("c:/tiles")));
    assert_eq!(identify_convert_set_arg("symsetdir:syms"), Ok(ConvertSetArg::SymbolSetDir("syms")));
    assert_eq!(identify_convert_set_arg("symsetdir:"), Ok(ConvertSetArg::SymbolSetDir("")));
}

#[test]
fn non_ascii_paths_are_kept() {
    assert_eq!(
        identify_convert_set_arg("tilesetgrids:é.png:日本.png"),
        Ok(ConvertSetArg::TileSetGrids { sd_path: "é.png", hd_path: "日本.png" })
    );
}

#[test]
fn norm_args_split() {
    assert_eq!(argument_norm_args("dir"), Ok(("dir", None)));
    assert_eq!(argument_norm_args("dir:id"), Ok(("dir", Some("id"))));
    assert_eq!(argument_norm_args(""), Ok(("", None)));
    assert_eq!(argument_norm_args("a:b:c"), Err(bin_err("too many arguments")));
}

#[test]
fn prefixes_name_the_kinds() {
    let args = [
        ("binset:a:b:c:d", "binset"),
        ("binsetnorm:a", "binsetnorm"),
        ("tilesetgrids:a:b", "tilesetgrids"),
        ("tilesetgridsnorm:a", "tilesetgridsnorm"),
        ("tilesetdir:a", "tilesetdir"),
        ("symsetdir:a", "symsetdir"),
    ];
    for (text, prefix) in args {
        assert_eq!(identify_convert_set_arg(text).unwrap().prefix(), prefix);
    }
}

#[test]
fn same_kind_conversions_are_refused() {
    let pairs = [
        ("binset:a:b:c:d", "binset:e:f:g:h", "binset"),
        ("binsetnorm:a", "binsetnorm:b:c", "binsetnorm"),
        ("tilesetgrids:a:b", "tilesetgrids:c:d", "tilesetgrids"),
        ("tilesetgridsnorm:a", "tilesetgridsnorm:a", "tilesetgridsnorm"),
        ("tilesetdir:a", "tilesetdir:b", "tilesetdir"),
        ("symsetdir:a", "symsetdir:b", "symsetdir"),
    ];
    for (from, to, prefix) in pairs {
        assert_eq!(
            identify_conversion(from, to),
            Err(ConvertSetError::InvalidConversion { from_prefix: prefix.to_string(), to_prefix: prefix.to_string() })
        );
    }
}

#[test]
fn different_kinds_convert() {
    assert_eq!(
        identify_conversion("tilesetdir:/a", "binsetnorm:/b:font1"),
        Ok((ConvertSetArg::TileSetDir("/a"), ConvertSetArg::BinFileSetNorm { dir: "/b", ident: Some("font1") }))
    );
    assert_eq!(
        identify_conversion("binsetnorm:/b:font1", "tilesetdir:/c"),
        Ok((ConvertSetArg::BinFileSetNorm { dir: "/b", ident: Some("font1") }, ConvertSetArg::TileSetDir("/c")))
    );
    assert_eq!(
        identify_conversion("tilesetgrids:s:h", "symsetdir:out"),
        Ok((ConvertSetArg::TileSetGrids { sd_path: "s", hd_path: "h" }, ConvertSetArg::SymbolSetDir("out")))
    );
}

#[test]
fn bad_arguments_name_their_side() {
    assert_eq!(
        identify_conversion("binset:a", "tilesetdir:x"),
        Err(ConvertSetError::FromArg(bin_err("too few arguments")))
    );
    assert_eq!(
        identify_conversion("tilesetdir:x", "nothing"),
        Err(ConvertSetError::ToArg(InvalidConvertSetArgError::InvalidConvertArgError(
            InvalidConvertArgError::NoPrefix
        )))
    );
    assert_eq!(
        identify_conversion("foo:x", "bar:y"),
        Err(ConvertSetError::FromArg(InvalidConvertSetArgError::InvalidConvertArgError(
            InvalidConvertArgError::InvalidPrefix("foo".to_string())
        )))
    );
}

#[test]
fn error_messages() {
    assert_eq!(
        identify_conversion("binset:a", "tilesetdir:x").unwrap_err().message(),
        "invalid `from` argument: too few arguments"
    );
    assert_eq!(
        identify_conversion("tilesetdir:x", "zz:y").unwrap_err().message(),
        "invalid `to` argument: invalid prefix: zz"
    );
    assert_eq!(
        identify_conversion("tilesetdir:x", "zz").unwrap_err().message(),
        "invalid `to` argument: no prefix"
    );
    assert_eq!(
        identify_conversion("symsetdir:a", "symsetdir:b").unwrap_err().message(),
        "invalid conversion from symsetdir to symsetdir"
    );
    assert_eq!(grids_err("too many arguments").message(), "too many arguments");
}
