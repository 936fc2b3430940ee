#[test]
fn test_scheme_temperature_ranges() {
    // Verify all schemes cover reasonable temperature ranges
    let schemes = vec![
        ("quietbox_sunset", vec![20.0, 35.0, 50.0, 60.0, 70.0]),
        ("tt_dark", vec![20.0, 35.0, 50.0, 60.0, 70.0]),
        ("tt_light", vec![20.0, 35.0, 50.0, 60.0, 70.0]),
    ];

    for (name, temps) in schemes {
        // Verify min temp is reasonable (typically 15-25°C)
        assert!(
            temps[0] >= 15.0 && temps[0] <= 30.0,
            "Scheme '{}' has unusual min temp: {}°C",
            name, temps[0]
        );

        // Verify max temp is reasonable (typically 65-80°C)
        assert!(
            temps[temps.len()-1] >= 60.0 && temps[temps.len()-1] <= 85.0,
            "Scheme '{}' has unusual max temp: {}°C",
            name, temps[temps.len()-1]
        );

        // Verify span is at least 40°C
        let span = temps[temps.len()-1] - temps[0];
        assert!(
            span >= 40.0,
            "Scheme '{}' has too narrow temperature range: {}°C",
            name, span
        );
    }
}
