pub mod yew_app;
