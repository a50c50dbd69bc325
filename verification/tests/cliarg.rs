use arielosbom::sbom::{BomFormat, FileFormat};

#[test]
fn bom_format_names_are_read_in_any_case() {
    assert_eq!(BomFormat::parse("raw"), Ok(BomFormat::Raw));
    assert_eq!(BomFormat::parse("Raw"), Ok(BomFormat::Raw));
    assert_eq!(BomFormat::parse("SPDX"), Ok(BomFormat::SPDX));
    assert_eq!(BomFormat::parse("cdx"), Ok(BomFormat::CDX));
    assert_eq!(BomFormat::parse("CycloneDX"), Ok(BomFormat::CDX));
    assert_eq!(BomFormat::parse("Cyclone-DX"), Ok(BomFormat::CDX));
}

#[test]
fn unknown_bom_format_is_named_in_lower_case() {
    assert_eq!(
        BomFormat::parse("SWID"),
        Err("Invalid or unsupported BOM format: swid".to_string())
    );
    assert_eq!(BomFormat::parse(""), Err("Invalid or unsupported BOM format: ".to_string()));
}

#[test]
fn lower_case_name_is_taken_as_it_is() {
    assert_eq!(BomFormat::from_lowercase("spdx"), Ok(BomFormat::SPDX));
    assert_eq!(
        BomFormat::from_lowercase("SPDX"),
        Err("Invalid or unsupported BOM format: SPDX".to_string())
    );
    assert_eq!(FileFormat::from_lowercase("json"), Ok(FileFormat::Json));
    assert_eq!(
        FileFormat::from_lowercase("JSON"),
        Err("Invalid or unsupported file format: JSON".to_string())
    );
}

#[test]
fn file_format_names_are_read_in_any_case() {
    assert_eq!(FileFormat::parse("json"), Ok(FileFormat::Json));
    assert_eq!(FileFormat::parse("JSON"), Ok(FileFormat::Json));
    assert_eq!(
        FileFormat::parse("Yaml"),
        Err("Invalid or unsupported file format: yaml".to_string())
    );
}

#[test]
fn formats_are_read_from_strings() {
    assert_eq!("Raw".parse::<BomFormat>(), Ok(BomFormat::Raw));
    assert_eq!("cyclonedx".parse::<BomFormat>(), Ok(BomFormat::CDX));
    assert_eq!("Json".parse::<FileFormat>(), Ok(FileFormat::Json));
    assert!("toml".parse::<FileFormat>().is_err());
}

#[test]
fn formats_are_shown_by_their_labels() {
    assert_eq!(BomFormat::Raw.label(), "Raw");
    assert_eq!(BomFormat::SPDX.label(), "SPDX");
    assert_eq!(BomFormat::CDX.label(), "Cyclone-DX");
    assert_eq!(FileFormat::Json.label(), "json");
}
